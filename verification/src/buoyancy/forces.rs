//! The forces of the water on the body.
//!
//! Forces are in micronewtons, torques in micronewton metres, speeds in micrometres per
//! second, turning rates in microradians per second and masses in grams. A method first
//! finds the elements that the water touches ([`apply_hydro_forces`]); the force on an
//! element then follows from the velocity of the body there.

use vstd::prelude::*;
use crate::geom::{floor_div, Long, Point};
use crate::geom::{floor_sqrt, lemma_floor_sqrt_exists};
use crate::geom::lemma_product_bound;
use crate::lists::{lemma_pick_none, lemma_pick_step, pick};
use super::body::{refresh_hull_cache, refresh_voxel_cache, HullCache, HullKey, VoxelCache, VoxelKey};
use super::body::{area_sum, grid_of, longest_side};
use super::body::{MAX_VOXEL_RES, SWEEP_LIMIT};
use super::hydro::{buoyancy, geometry, headings_valid, hull, moved, submerged};
use super::hydro::{clip_triangle_below, rotate, submerged_volume_centroid, to_world, tri_geom};
use super::hydro::{tri_to_world, world_y, Buoyancy, Heading, Rotation, TriGeom, Triangle};
use super::hydro::{HULL_LIMIT, LEAST_SIXFOLD, POSITION_LIMIT, SHAPE_LIMIT};
use super::solid::{clipped, placed_hull};
use super::{Method, SimParams};
use super::WATER_LEVEL;

verus! {

/// The fastest the body moves or turns along an axis (2^28 um/s, 268 m/s): a drag is a volume
/// times a coefficient times the square of a speed, and must fit 128 bits.
pub const VELOCITY_LIMIT: i64 = 0x1000_0000;

/// The largest drag coefficient, in millionths.
pub const COEFF_LIMIT: u32 = 0x40_0000;

/// The largest mass, in grams.
pub const MASS_LIMIT: u64 = 0x100_0000_0000;

/// The largest skin-friction coefficient, in millionths.
pub const FRICTION_LIMIT: u64 = 0x2_0000;

/// Where the body is and how it is turned.
#[derive(Clone, Copy, Debug, PartialEq, Eq, Structural)]
pub struct Pose {
    pub pos: Point,
    pub rot: Rotation,
}

impl Pose {
    pub open spec fn valid(self) -> bool {
        self.pos.within(POSITION_LIMIT as int) && self.rot.valid()
    }

    /// Where the pose puts the point `p` of the body.
    pub open spec fn of(self, p: Point) -> Point {
        moved(self.pos, self.rot.of(p))
    }
}

/// A body as the water sees it: on the tank's axis, and no higher or deeper than a hull can
/// be reckoned at. The forces do not depend on where over the tank the body floats, and out
/// of the reach of the surface not on how far from it. `offset` leads from there to the body.
#[derive(Clone, Copy, Debug, PartialEq, Eq, Structural)]
pub struct Placed {
    pub near: Point,
    pub offset: Point,
}

/// A body at `pos`, as the water sees it.
pub fn bring_near(pos: &Point) -> (p: Placed)
    requires
        pos.is_local(),
    ensures
        p.near.x == 0,
        p.near.z == 0,
        p.near.y == (if pos.y < -POSITION_LIMIT {
            -POSITION_LIMIT
        } else if pos.y > POSITION_LIMIT {
            POSITION_LIMIT as int
        } else {
            pos.y as int
        }),
        p.near.within(POSITION_LIMIT as int),
        moved(p.offset, p.near) == *pos,
{
    let y: i64 = if pos.y < -POSITION_LIMIT {
        -POSITION_LIMIT
    } else if pos.y > POSITION_LIMIT {
        POSITION_LIMIT
    } else {
        pos.y
    };
    Placed {
        near: Point { x: 0, y, z: 0 },
        offset: Point { x: pos.x, y: pos.y - y, z: pos.z },
    }
}

/// A force or torque.
#[derive(Clone, Copy, Debug, PartialEq, Eq, Structural)]
pub struct Force {
    pub x: i128,
    pub y: i128,
    pub z: i128,
}

// ---- The voxel grid ------------------------------------------------------------------

/// How much of a cell is under water, in millionths. A cell counts as tall as it is wide:
/// exact for full and empty cells, softened in between.
pub open spec fn cell_share(y: int, side: int, res: int) -> int {
    let s = ((WATER_LEVEL - y) * res * 1_000_000) / side + 500_000;
    if s < 0 {
        0
    } else if s > 1_000_000 {
        1_000_000
    } else {
        s
    }
}

/// The volume of a cell of which `share` millionths are under water.
pub open spec fn cell_volume(side: int, res: int, share: int) -> int {
    (side * side * side * share) / (res * res * res * 1_000_000)
}

/// A cell that the water touches.
#[derive(Clone, Copy, Debug, PartialEq, Eq, Structural)]
pub struct WetCell {
    pub at: Point,
    /// The volume under water, in cubic micrometres.
    pub volume: u128,
}

/// The wet cells among the cells with the middles `centres`.
pub open spec fn wet_cells(centres: Seq<Point>, side: int, res: int, pose: Pose) -> Seq<WetCell> {
    pick(
        centres,
        |c: Point| cell_share(pose.of(c).y as int, side, res) > 0,
        |c: Point|
            WetCell {
                at: pose.of(c),
                volume: cell_volume(
                    side,
                    res,
                    cell_share(pose.of(c).y as int, side, res),
                ) as u128,
            },
    )
}

fn share_under_water(y: i64, side: i64, res: u32) -> (share: i64)
    requires
        -HULL_LIMIT <= y <= HULL_LIMIT,
        0 < side <= 2 * SHAPE_LIMIT,
        1 <= res <= MAX_VOXEL_RES,
    ensures
        share == cell_share(y as int, side as int, res as int),
        0 <= share <= 1_000_000,
{
    proof {
        lemma_product_bound(WATER_LEVEL - y, res as int, HULL_LIMIT as int, 64);
    }
    let depth: i128 = (WATER_LEVEL - y) as i128 * res as i128;
    let s: i128 = floor_div(depth * 1_000_000, side as i128) + 500_000;
    if s < 0 {
        0
    } else if s > 1_000_000 {
        1_000_000
    } else {
        s as i64
    }
}

fn volume_under_water(side: i64, res: u32, share: i64) -> (v: u128)
    requires
        0 < side <= 2 * SHAPE_LIMIT,
        1 <= res <= MAX_VOXEL_RES,
        0 <= share <= 1_000_000,
    ensures
        v == cell_volume(side as int, res as int, share as int),
        v <= 0x100_0000_0000_0000_0000,
{
    let (s, r): (u128, u128) = (side as u128, res as u128);
    proof {
        assert(s * s <= 0x100_0000 * 0x100_0000) by (nonlinear_arith)
            requires
                0 <= s <= 0x100_0000,
        ;
        assert(s * s * s <= 0x100_0000_0000_0000_0000) by (nonlinear_arith)
            requires
                0 <= s * s <= 0x100_0000 * 0x100_0000,
                0 <= s <= 0x100_0000,
        ;
        assert(0 <= s * s * s * share <= 0x100_0000_0000_0000_0000 * 1_000_000) by (nonlinear_arith)
            requires
                0 <= s * s * s <= 0x100_0000_0000_0000_0000,
                0 <= share <= 1_000_000,
        ;
        assert(1 <= r * r <= 4096) by (nonlinear_arith)
            requires
                1 <= r <= 64,
        ;
        assert(1 <= r * r * r <= 262144) by (nonlinear_arith)
            requires
                1 <= r * r <= 4096,
                1 <= r <= 64,
        ;
        let (num, den) = (s * s * s * share, r * r * r * 1_000_000);
        assert(num / den <= 0x100_0000_0000_0000_0000) by (nonlinear_arith)
            requires
                0 <= num <= 0x100_0000_0000_0000_0000 * 1_000_000,
                den >= 1_000_000,
        ;
    }
    (s * s * s * share as u128) / (r * r * r * 1_000_000)
}

/// The cells that the water touches, and how much of each is under it.
fn find_wet_cells(cache: &VoxelCache, res: u32, pose: &Pose) -> (cells: Vec<WetCell>)
    requires
        cache.wf(),
        cache.key is Some,
        res == cache.key->0.res,
        pose.valid(),
    ensures
        cells@ == wet_cells(cache.centres@, cache.side as int, res as int, *pose),
        forall|i: int|
            0 <= i < cells@.len() ==> (#[trigger] cells@[i]).volume <= 0x100_0000_0000_0000_0000,
{
    let side: i64 = cache.side;
    let ghost p = |c: Point| cell_share(pose.of(c).y as int, side as int, res as int) > 0;
    let ghost f = |c: Point|
        WetCell {
            at: pose.of(c),
            volume: cell_volume(
                side as int,
                res as int,
                cell_share(pose.of(c).y as int, side as int, res as int),
            ) as u128,
        };
    let mut cells: Vec<WetCell> = Vec::new();
    let mut i: usize = 0;
    proof {
        lemma_pick_none(cache.centres@, p, f);
    }
    while i < cache.centres.len()
        invariant
            cache.wf(),
            cache.key is Some,
            res == cache.key->0.res,
            pose.valid(),
            side == cache.side,
            i <= cache.centres.len(),
            p == (|c: Point| cell_share(pose.of(c).y as int, side as int, res as int) > 0),
            f == (|c: Point|
                WetCell {
                    at: pose.of(c),
                    volume: cell_volume(
                        side as int,
                        res as int,
                        cell_share(pose.of(c).y as int, side as int, res as int),
                    ) as u128,
                }),
            cells@ == pick(cache.centres@.take(i as int), p, f),
            forall|k: int|
                0 <= k < cells@.len() ==> (#[trigger] cells@[k]).volume
                    <= 0x100_0000_0000_0000_0000,
        decreases cache.centres.len() - i,
    {
        let c: Point = cache.centres[i];
        proof {
            lemma_pick_step(cache.centres@, i as int, p, f);
            assert(cache.centres@[i as int].within(SHAPE_LIMIT as int));
        }
        let y: i64 = world_y(&pose.pos, &pose.rot, &c);
        let share: i64 = share_under_water(y, side, res);
        if share > 0 {
            cells.push(
                WetCell {
                    at: to_world(&pose.pos, &pose.rot, &c),
                    volume: volume_under_water(side, res, share),
                },
            );
        }
        i = i + 1;
    }
    assert(cache.centres@.take(cache.centres@.len() as int) =~= cache.centres@);
    cells
}

/// The drag along one axis on a wet volume that moves at `v` along it.
pub open spec fn cell_drag(volume: int, coeff: int, v: int) -> int {
    -((3 * ((volume * coeff) / 1_000_000) * v) / 1_000_000_000_000_000)
}

/// The force on a wet cell whose middle moves at `v`: what it displaces weighs, upwards,
/// less the drag on it.
pub open spec fn cell_force_at(cell: WetCell, params: SimParams, v: Point) -> Force {
    let (volume, coeff) = (cell.volume as int, params.drag_coeff as int);
    let lift = (volume * 981) / 100_000_000_000;
    if params.drag_on {
        Force {
            x: cell_drag(volume, coeff, v.x as int) as i128,
            y: (lift + cell_drag(volume, coeff, v.y as int)) as i128,
            z: cell_drag(volume, coeff, v.z as int) as i128,
        }
    } else {
        Force { x: 0, y: lift as i128, z: 0 }
    }
}

fn drag_on_cell(volume: u128, coeff: u32, v: i64) -> (f: i128)
    requires
        volume <= 0x100_0000_0000_0000_0000,
        coeff <= COEFF_LIMIT,
        -VELOCITY_LIMIT <= v <= VELOCITY_LIMIT,
    ensures
        f == cell_drag(volume as int, coeff as int, v as int),
        -0x1000_0000_0000_0000_0000_0000_0000 <= f <= 0x1000_0000_0000_0000_0000_0000_0000,
{
    proof {
        lemma_product_bound(
            volume as int,
            coeff as int,
            0x100_0000_0000_0000_0000,
            COEFF_LIMIT as int,
        );
        assert(0 <= volume * coeff) by (nonlinear_arith)
            requires
                0 <= volume,
                0 <= coeff,
        ;
    }
    let k: i128 = floor_div(volume as i128 * coeff as i128, 1_000_000);
    proof {
        lemma_product_bound(3 * k, v as int, 0x1000_0000_0000_0000_0000, VELOCITY_LIMIT as int);
    }
    -floor_div(3 * k * (v as i128), 1_000_000_000_000_000)
}

/// The force on a wet cell.
pub fn cell_force(cell: &WetCell, params: &SimParams, v: &Point) -> (f: Force)
    requires
        cell.volume <= 0x100_0000_0000_0000_0000,
        params.drag_coeff <= COEFF_LIMIT,
        v.within(VELOCITY_LIMIT as int),
    ensures
        f == cell_force_at(*cell, *params, *v),
{
    let lift: i128 = floor_div(cell.volume as i128 * 981, 100_000_000_000);
    if params.drag_on {
        Force {
            x: drag_on_cell(cell.volume, params.drag_coeff, v.x),
            y: lift + drag_on_cell(cell.volume, params.drag_coeff, v.y),
            z: drag_on_cell(cell.volume, params.drag_coeff, v.z),
        }
    } else {
        Force { x: 0, y: lift, z: 0 }
    }
}

// ---- Surface pressure ----------------------------------------------------------------

/// A piece of the hull under water.
#[derive(Clone, Copy, Debug, PartialEq, Eq, Structural)]
pub struct WetFace {
    pub at: Point,
    /// Outward unit normal, in millionths.
    pub normal: Point,
    /// In square micrometres.
    pub area: u64,
}

/// Whether no corner of the triangle is under water.
pub open spec fn dry(tri: Triangle, pose: Pose) -> bool {
    pose.of(tri.a).y > WATER_LEVEL && pose.of(tri.b).y > WATER_LEVEL && pose.of(tri.c).y
        > WATER_LEVEL
}

/// The submerged pieces that have an area, as faces.
pub open spec fn faces_of(pieces: Seq<Triangle>) -> Seq<WetFace> {
    pick(
        pieces,
        |t: Triangle| geometry(t) is Some,
        |t: Triangle|
            WetFace {
                at: geometry(t)->0.centroid,
                normal: geometry(t)->0.normal,
                area: geometry(t)->0.area,
            },
    )
}

/// The wet faces of one triangle of the hull.
pub open spec fn triangle_faces(tri: Triangle, pose: Pose) -> Seq<WetFace> {
    faces_of(submerged(tri.placed(pose.pos, pose.rot), WATER_LEVEL))
}

/// The area of `faces` together.
pub open spec fn wet_area(faces: Seq<WetFace>) -> nat
    decreases faces.len(),
{
    if faces.len() == 0 {
        0
    } else {
        wet_area(faces.drop_last()) + faces.last().area as nat
    }
}

/// What the water touches of one triangle of the hull.
pub struct WetTriangle {
    /// Whether it is wholly above the water.
    pub dry: bool,
    pub faces: Vec<WetFace>,
    /// The area of the faces together.
    pub area: u128,
}

impl WetTriangle {
    /// Whether this is what the water touches of `tri`.
    pub open spec fn is_of(&self, tri: Triangle, pose: Pose) -> bool {
        &&& self.dry == dry(tri, pose)
        &&& self.faces@ == triangle_faces(tri, pose)
        &&& self.area == wet_area(self.faces@)
        &&& self.valid()
    }

    /// Whether the faces are ones that a hull in the tank can have.
    pub open spec fn valid(&self) -> bool {
        &&& self.area <= 0x8000_0000_0000_0000
        &&& forall|i: int|
            0 <= i < self.faces@.len() ==> face_valid(#[trigger] self.faces@[i])
    }
}

/// Whether a face is one that a hull in the tank can have.
pub open spec fn face_valid(face: WetFace) -> bool {
    &&& face.at.within(HULL_LIMIT as int)
    &&& face.normal.within(1_002_000)
    &&& face.area < 0x4000_0000_0000_0000
}

/// What the water touches of one triangle of the hull.
fn wet_triangle(tri: &Triangle, pose: &Pose) -> (w: WetTriangle)
    requires
        tri.within(SHAPE_LIMIT as int),
        pose.valid(),
    ensures
        w.is_of(*tri, *pose),
{
    let ghost placed = tri.placed(pose.pos, pose.rot);
    if world_y(&pose.pos, &pose.rot, &tri.a) > WATER_LEVEL && world_y(
        &pose.pos,
        &pose.rot,
        &tri.b,
    ) > WATER_LEVEL && world_y(&pose.pos, &pose.rot, &tri.c) > WATER_LEVEL {
        proof {
            super::hydro::law_clipping_is_all_or_nothing_off_the_waterline(placed, WATER_LEVEL);
            let none = submerged(placed, WATER_LEVEL);
            assert(none =~= none.take(0));
            lemma_pick_none(
                none,
                |t: Triangle| geometry(t) is Some,
                |t: Triangle|
                    WetFace {
                        at: geometry(t)->0.centroid,
                        normal: geometry(t)->0.normal,
                        area: geometry(t)->0.area,
                    },
            );
        }
        let faces: Vec<WetFace> = Vec::new();
        assert(faces@ =~= triangle_faces(*tri, *pose));
        return WetTriangle { dry: true, faces, area: 0 };
    }
    let world: Triangle = tri_to_world(tri, &pose.pos, &pose.rot);
    let mut pieces: Vec<Triangle> = Vec::new();
    clip_triangle_below(&world, WATER_LEVEL, &mut pieces);
    assert(pieces@ =~= submerged(world, WATER_LEVEL));
    let ghost p = |t: Triangle| geometry(t) is Some;
    let ghost f = |t: Triangle|
        WetFace {
            at: geometry(t)->0.centroid,
            normal: geometry(t)->0.normal,
            area: geometry(t)->0.area,
        };
    let mut faces: Vec<WetFace> = Vec::new();
    let mut area: u128 = 0;
    let mut i: usize = 0;
    proof {
        lemma_pick_none(pieces@, p, f);
    }
    while i < pieces.len()
        invariant
            i <= pieces.len() <= 2,
            forall|k: int|
                0 <= k < pieces@.len() ==> (#[trigger] pieces@[k]).within(HULL_LIMIT as int),
            p == (|t: Triangle| geometry(t) is Some),
            f == (|t: Triangle|
                WetFace {
                    at: geometry(t)->0.centroid,
                    normal: geometry(t)->0.normal,
                    area: geometry(t)->0.area,
                }),
            faces@ == pick(pieces@.take(i as int), p, f),
            area == wet_area(faces@),
            area <= i * 0x4000_0000_0000_0000,
            forall|k: int| 0 <= k < faces@.len() ==> face_valid(#[trigger] faces@[k]),
        decreases pieces.len() - i,
    {
        let piece: Triangle = pieces[i];
        proof {
            lemma_pick_step(pieces@, i as int, p, f);
            assert(pieces@[i as int].within(HULL_LIMIT as int));
        }
        if let Some(g) = tri_geom(&piece) {
            let ghost before = faces@;
            faces.push(WetFace { at: g.centroid, normal: g.normal, area: g.area });
            area = area + g.area as u128;
            assert(faces@.drop_last() =~= before);
        }
        i = i + 1;
    }
    assert(pieces@.take(pieces@.len() as int) =~= pieces@);
    WetTriangle { dry: false, faces, area }
}

/// What the water touches of each triangle of the hull.
fn find_wet_triangles(cache: &HullCache, pose: &Pose) -> (wet: Vec<WetTriangle>)
    requires
        cache.wf(),
        pose.valid(),
    ensures
        wet@.len() == cache.tris@.len(),
        forall|j: int| 0 <= j < wet@.len() ==> (#[trigger] wet@[j]).is_of(cache.tris@[j], *pose),
{
    let mut wet: Vec<WetTriangle> = Vec::new();
    let mut j: usize = 0;
    while j < cache.tris.len()
        invariant
            cache.wf(),
            pose.valid(),
            j <= cache.tris.len(),
            wet@.len() == j,
            forall|k: int| 0 <= k < j ==> (#[trigger] wet@[k]).is_of(cache.tris@[k], *pose),
        decreases cache.tris.len() - j,
    {
        let tri: Triangle = cache.tris[j];
        assert(cache.tris@[j as int].within(SHAPE_LIMIT as int));
        wet.push(wet_triangle(&tri, pose));
        j = j + 1;
    }
    wet
}

/// The speed along `normal` of what moves at `v`.
pub open spec fn normal_speed(v: Point, normal: Point) -> int {
    (v.x * normal.x + v.y * normal.y + v.z * normal.z) / 1_000_000
}

/// What of `v` runs along the face, on one axis.
pub open spec fn tangential(v: int, normal: int, speed: int) -> int {
    v - (normal * speed) / 1_000_000
}

/// The velocity along the face.
pub open spec fn tangential_velocity(v: Point, normal: Point) -> Point {
    let s = normal_speed(v, normal);
    Point {
        x: tangential(v.x as int, normal.x as int, s) as i64,
        y: tangential(v.y as int, normal.y as int, s) as i64,
        z: tangential(v.z as int, normal.z as int, s) as i64,
    }
}

/// The weight of the water above a face, vertically: over a closed surface the horizontal
/// parts cancel.
pub open spec fn pressure_lift(face: WetFace) -> int {
    -(((WATER_LEVEL - face.at.y) * face.area * face.normal.y * 9_810) / 1_000_000_000_000_000_000)
}

/// Skin friction along one axis: on the flow `along` the face at speed `speed`.
pub open spec fn friction(face: WetFace, c_f: int, coeff: int, speed: int, along: int) -> int {
    let k = (((face.area * c_f) / 1_000_000) * coeff) / 1_000_000;
    -((((k * speed) / 1_000_000) * along * 500) / 1_000_000_000_000)
}

/// Drag against the flow normal to a face, along one axis: it resists what moves into the
/// water and pulls on what retreats.
pub open spec fn normal_drag(face: WetFace, coeff: int, speed: int, normal: int) -> int {
    let s = if speed >= 0 {
        speed
    } else {
        -speed
    };
    let k = (((face.area * coeff) / 1_000_000) * s) / 1_000_000;
    -((((k * speed) / 1_000_000) * normal * 500) / 1_000_000_000_000)
}

/// The force on a wet face that moves at `v`.
pub open spec fn face_force_at(face: WetFace, params: SimParams, c_f: int, v: Point) -> Force {
    let speed = normal_speed(v, face.normal);
    let t = tangential_velocity(v, face.normal);
    let along = floor_sqrt(t.len2() as nat) as int;
    let (c, pc) = (params.drag_coeff as int, params.pressure_drag_coeff as int);
    let viscous = |axis: int|
        if params.drag_on {
            friction(face, c_f, c, along, axis)
        } else {
            0
        };
    let pressed = |axis: int|
        if params.pressure_drag_on {
            normal_drag(face, pc, speed, axis)
        } else {
            0
        };
    Force {
        x: (viscous(t.x as int) + pressed(face.normal.x as int)) as i128,
        y: (pressure_lift(face) + viscous(t.y as int) + pressed(face.normal.y as int)) as i128,
        z: (viscous(t.z as int) + pressed(face.normal.z as int)) as i128,
    }
}

fn speed_along(v: &Point, normal: &Point) -> (s: i64)
    requires
        v.within(VELOCITY_LIMIT as int),
        normal.within(1_002_000),
    ensures
        s == normal_speed(*v, *normal),
        -0x4000_0000 <= s <= 0x4000_0000,
{
    proof {
        lemma_product_bound(v.x as int, normal.x as int, VELOCITY_LIMIT as int, 1_002_000);
        lemma_product_bound(v.y as int, normal.y as int, VELOCITY_LIMIT as int, 1_002_000);
        lemma_product_bound(v.z as int, normal.z as int, VELOCITY_LIMIT as int, 1_002_000);
    }
    let dot: i128 = v.x as i128 * normal.x as i128 + v.y as i128 * normal.y as i128 + v.z as i128
        * normal.z as i128;
    floor_div(dot, 1_000_000) as i64
}

fn tangential_part(v: i64, normal: i64, speed: i64) -> (t: i64)
    requires
        -VELOCITY_LIMIT <= v <= VELOCITY_LIMIT,
        -1_002_000 <= normal <= 1_002_000,
        -0x4000_0000 <= speed <= 0x4000_0000,
    ensures
        t == tangential(v as int, normal as int, speed as int),
        -0x6000_0000 <= t <= 0x6000_0000,
{
    proof {
        lemma_product_bound(normal as int, speed as int, 1_002_000, 0x4000_0000);
    }
    let back: i128 = floor_div(normal as i128 * speed as i128, 1_000_000);
    (v as i128 - back) as i64
}

/// The length of a vector with bounded coordinates is bounded.
pub(crate) proof fn lemma_length_bound(p: Point, limit: int)
    requires
        p.within(limit),
        0 <= limit,
    ensures
        floor_sqrt(p.len2() as nat) <= 2 * limit,
        p.len2() >= 0,
{
    let (x, y, z) = (p.x as int, p.y as int, p.z as int);
    lemma_product_bound(x, x, limit, limit);
    lemma_product_bound(y, y, limit, limit);
    lemma_product_bound(z, z, limit, limit);
    assert(x * x >= 0 && y * y >= 0 && z * z >= 0) by (nonlinear_arith);
    let n = p.len2() as nat;
    lemma_floor_sqrt_exists(n);
    let r = floor_sqrt(n) as int;
    assert(r <= 2 * limit) by (nonlinear_arith)
        requires
            r * r <= 3 * (limit * limit),
            0 <= limit,
            0 <= r,
    ;
}

fn pressure_on(face: &WetFace) -> (f: i128)
    requires
        face_valid(*face),
    ensures
        f == pressure_lift(*face),
        -0x1000_0000_0000_0000_0000_0000_0000 <= f <= 0x1000_0000_0000_0000_0000_0000_0000,
{
    let depth: i128 = (WATER_LEVEL - face.at.y) as i128;
    proof {
        lemma_product_bound(depth as int, face.area as int, HULL_LIMIT as int, 0x4000_0000_0000_0000);
        lemma_product_bound(
            depth * face.area,
            face.normal.y as int,
            0x100_0000_0000_0000_0000_0000,
            1_002_000,
        );
    }
    let f: i128 = -floor_div(
        depth * face.area as i128 * face.normal.y as i128 * 9_810,
        1_000_000_000_000_000_000,
    );
    f
}

/// `a * b / 1_000_000`, rounded down.
fn millionth(a: i128, b: i128, Ghost(la): Ghost<int>, Ghost(lb): Ghost<int>) -> (q: i128)
    requires
        -la <= a <= la,
        -lb <= b <= lb,
        0 <= la,
        0 <= lb,
        la * lb <= 0x4000_0000_0000_0000_0000_0000_0000_0000,
    ensures
        q == (a * b) / 1_000_000,
        -(la * lb) / 1_000_000 - 1 <= q <= (la * lb) / 1_000_000,
        a >= 0 && b >= 0 ==> q >= 0,
{
    proof {
        lemma_product_bound(a as int, b as int, la, lb);
        if a >= 0 && b >= 0 {
            assert(a * b >= 0) by (nonlinear_arith)
                requires
                    a >= 0,
                    b >= 0,
            ;
        }
    }
    floor_div(a * b, 1_000_000)
}

fn friction_on(face: &WetFace, c_f: u64, coeff: u32, speed: u64, along: i64) -> (f: i128)
    requires
        face_valid(*face),
        c_f <= FRICTION_LIMIT,
        coeff <= COEFF_LIMIT,
        speed <= 0xc000_0000,
        -0x6000_0000 <= along <= 0x6000_0000,
    ensures
        f == friction(*face, c_f as int, coeff as int, speed as int, along as int),
        -0x1000_0000_0000_0000_0000_0000_0000 <= f <= 0x1000_0000_0000_0000_0000_0000_0000,
{
    let a: i128 = millionth(
        face.area as i128,
        c_f as i128,
        Ghost(0x4000_0000_0000_0000),
        Ghost(0x2_0000),
    );
    let k: i128 = millionth(
        a,
        coeff as i128,
        Ghost(0x1000_0000_0000_0000),
        Ghost(0x40_0000),
    );
    let q: i128 = millionth(
        k,
        speed as i128,
        Ghost(0x8000_0000_0000_0000),
        Ghost(0xc000_0000),
    );
    proof {
        lemma_product_bound(q as int, along as int, 0x1_0000_0000_0000_0000_0000, 0x6000_0000);
    }
    -floor_div(q * along as i128 * 500, 1_000_000_000_000)
}

fn normal_drag_on(face: &WetFace, coeff: u32, speed: i64, normal: i64) -> (f: i128)
    requires
        face_valid(*face),
        coeff <= COEFF_LIMIT,
        -0x4000_0000 <= speed <= 0x4000_0000,
        -1_002_000 <= normal <= 1_002_000,
    ensures
        f == normal_drag(*face, coeff as int, speed as int, normal as int),
        -0x1000_0000_0000_0000_0000_0000_0000 <= f <= 0x1000_0000_0000_0000_0000_0000_0000,
{
    let s: i128 = if speed >= 0 {
        speed as i128
    } else {
        -(speed as i128)
    };
    let a: i128 = millionth(
        face.area as i128,
        coeff as i128,
        Ghost(0x4000_0000_0000_0000),
        Ghost(0x40_0000),
    );
    let k: i128 = millionth(a, s, Ghost(0x2_0000_0000_0000_0000), Ghost(0x4000_0000));
    let q: i128 = millionth(
        k,
        speed as i128,
        Ghost(0x1000_0000_0000_0000_0000),
        Ghost(0x4000_0000),
    );
    proof {
        lemma_product_bound(q as int, normal as int, 0x100_0000_0000_0000_0000_0000, 1_002_000);
    }
    -floor_div(q * normal as i128 * 500, 1_000_000_000_000)
}

/// The force on a wet face. `c_f` is the skin-friction coefficient, in millionths.
pub fn face_force(face: &WetFace, params: &SimParams, c_f: u64, v: &Point) -> (f: Force)
    requires
        face_valid(*face),
        params.drag_coeff <= COEFF_LIMIT,
        params.pressure_drag_coeff <= COEFF_LIMIT,
        c_f <= FRICTION_LIMIT,
        v.within(VELOCITY_LIMIT as int),
    ensures
        f == face_force_at(*face, *params, c_f as int, *v),
{
    let speed: i64 = speed_along(v, &face.normal);
    let t: Point = Point {
        x: tangential_part(v.x, face.normal.x, speed),
        y: tangential_part(v.y, face.normal.y, speed),
        z: tangential_part(v.z, face.normal.z, speed),
    };
    assert(t == tangential_velocity(*v, face.normal));
    let along: u64 = crate::geom::integer_sqrt(t.length_squared());
    proof {
        lemma_length_bound(t, 0x6000_0000);
    }
    let (mut x, mut y, mut z): (i128, i128, i128) = (0, pressure_on(face), 0);
    if params.drag_on {
        x = friction_on(face, c_f, params.drag_coeff, along, t.x);
        y = y + friction_on(face, c_f, params.drag_coeff, along, t.y);
        z = friction_on(face, c_f, params.drag_coeff, along, t.z);
    }
    if params.pressure_drag_on {
        x = x + normal_drag_on(face, params.pressure_drag_coeff, speed, face.normal.x);
        y = y + normal_drag_on(face, params.pressure_drag_coeff, speed, face.normal.y);
        z = z + normal_drag_on(face, params.pressure_drag_coeff, speed, face.normal.z);
    }
    Force { x, y, z }
}

// ---- Slamming ------------------------------------------------------------------------

/// The speed of what moves at `v`.
pub open spec fn speed_of(v: Point) -> nat {
    floor_sqrt(v.len2() as nat)
}

/// How violently the swept volume of a triangle of area `area` changed over `dt`
/// nanoseconds, in micrometres per second squared.
pub open spec fn violence(dv: int, before: int, area: int, dt: int) -> int {
    let change = if dv >= before {
        dv - before
    } else {
        before - dv
    };
    (change * 1_000_000_000) / (area * dt)
}

/// How much of `normal` the velocity `v` runs along, in millionths.
pub open spec fn facing(v: Point, normal: Point, speed: int) -> int {
    (v.x * normal.x + v.y * normal.y + v.z * normal.z) / speed
}

/// How far the impact has saturated: the square of the violence over its maximum, in
/// millionths and at most one.
pub open spec fn saturation(gamma: int, gamma_max: int) -> int {
    let ratio = (gamma * 1_000_000) / gamma_max;
    let r = if ratio > 1_000_000 {
        1_000_000
    } else {
        ratio
    };
    (r * r) / 1_000_000
}

/// The share of the body's momentum that a triangle stops in a frame, in millionths.
pub open spec fn stopping_share(area: int, total: int) -> int {
    (2 * area * 1_000_000) / total
}

/// What a triangle of the hull is, and was, to the water.
#[derive(Clone, Copy, Debug, PartialEq, Eq, Structural)]
pub struct Slam {
    /// Whether the triangle is wholly above the water.
    pub dry: bool,
    /// Its geometry in the body's frame.
    pub geom: Option<TriGeom>,
    /// Its area under water, in square micrometres.
    pub wet_area: u128,
    /// The volume it swept in the frame before, in cubic micrometres per second.
    pub before: u128,
    /// The area of the whole hull.
    pub total_area: u128,
}

/// The length of a frame that the model reckons with: at least a tenth of a millisecond.
pub open spec fn frame(dt: u64) -> int {
    if dt < 100_000 {
        100_000
    } else {
        dt as int
    }
}

/// The volume that the triangle sweeps now, as remembered for the next frame.
pub open spec fn swept(slam: Slam, on: bool, v: Point) -> int {
    if slam.dry || !on {
        0
    } else if slam.geom is None {
        slam.before as int
    } else {
        slam.wet_area * speed_of(v)
    }
}

/// The weight of the impact on a triangle: how violent it is, how much the triangle faces
/// it and the triangle's share of the body, in millionths. None where there is no impact.
pub open spec fn slam_weight(
    slam: Slam,
    on: bool,
    gamma_max: int,
    rot: Rotation,
    dt: u64,
    v: Point,
) -> Option<int> {
    if slam.dry || !on || slam.geom is None || speed_of(v) <= 100 {
        None
    } else {
        let g = slam.geom->0;
        let dv = slam.wet_area * speed_of(v);
        let gamma = violence(dv, slam.before as int, g.area as int, frame(dt));
        let cos = facing(v, rot.of(g.normal), speed_of(v) as int);
        if cos > 0 && gamma > 0 {
            Some(
                (((saturation(gamma, gamma_max) * cos) / 1_000_000) * stopping_share(
                    g.area as int,
                    slam.total_area as int,
                )) / 1_000_000,
            )
        } else {
            None
        }
    }
}

/// The stopping force along one axis.
pub open spec fn stopping_force(weight: int, mass: int, v: int) -> int {
    -((weight * mass * v) / 1_000_000_000)
}

/// The force of the impact on a triangle of the hull, if there is one.
pub open spec fn slam_force_at(
    slam: Slam,
    params: SimParams,
    rot: Rotation,
    mass: u64,
    dt: u64,
    v: Point,
) -> Option<Force> {
    match slam_weight(slam, params.slamming_on, params.gamma_max as int, rot, dt, v) {
        Some(w) => Some(
            Force {
                x: stopping_force(w, mass as int, v.x as int) as i128,
                y: stopping_force(w, mass as int, v.y as int) as i128,
                z: stopping_force(w, mass as int, v.z as int) as i128,
            },
        ),
        None => None,
    }
}

/// No triangle has more area than the whole hull.
pub proof fn lemma_area_in_sum(geoms: Seq<Option<TriGeom>>, j: int)
    requires
        0 <= j < geoms.len(),
        geoms[j] is Some,
    ensures
        geoms[j]->0.area <= area_sum(geoms),
    decreases geoms.len(),
{
    if j < geoms.len() - 1 {
        lemma_area_in_sum(geoms.drop_last(), j);
        assert(geoms.drop_last()[j] == geoms[j]);
    }
}

/// How violently a triangle meets the water.
fn violence_of(dv: u128, before: u128, area: u64, dt: u64) -> (gamma: u128)
    requires
        dv <= SWEEP_LIMIT,
        before <= SWEEP_LIMIT,
        500 <= area < 0x4000_0000_0000_0000,
        100_000 <= dt,
    ensures
        gamma == violence(dv as int, before as int, area as int, dt as int),
        gamma <= 0x20_0000_0000_0000_0000_0000_0000,
{
    let change: u128 = if dv >= before {
        dv - before
    } else {
        before - dv
    };
    proof {
        assert(50_000_000 <= area * dt <= 0x4000_0000_0000_0000 * 0xffff_ffff_ffff_ffff)
            by (nonlinear_arith)
            requires
                500 <= area < 0x4000_0000_0000_0000,
                100_000 <= dt <= 0xffff_ffff_ffff_ffff,
        ;
        let (num, den) = (change * 1_000_000_000, area * dt);
        assert(num / den <= num / 50_000_000) by (nonlinear_arith)
            requires
                0 <= num,
                50_000_000 <= den,
        ;
    }
    (change * 1_000_000_000) / (area as u128 * dt as u128)
}

fn saturation_of(gamma: u128, gamma_max: u64) -> (s: i128)
    requires
        gamma <= 0x20_0000_0000_0000_0000_0000_0000,
        0 < gamma_max,
    ensures
        s == saturation(gamma as int, gamma_max as int),
        0 <= s <= 1_000_000,
{
    let ratio: u128 = (gamma * 1_000_000) / gamma_max as u128;
    let r: u128 = if ratio > 1_000_000 {
        1_000_000
    } else {
        ratio
    };
    assert(0 <= r * r <= 1_000_000_000_000) by (nonlinear_arith)
        requires
            0 <= r <= 1_000_000,
    ;
    ((r * r) / 1_000_000) as i128
}

fn facing_of(v: &Point, normal: &Point, speed: u64) -> (c: i128)
    requires
        v.within(VELOCITY_LIMIT as int),
        normal.within(3 * SHAPE_LIMIT),
        100 < speed,
    ensures
        c == facing(*v, *normal, speed as int),
        -0x1_0000_0000_0000 <= c <= 0x1_0000_0000_0000,
{
    proof {
        lemma_product_bound(v.x as int, normal.x as int, VELOCITY_LIMIT as int, 3 * SHAPE_LIMIT);
        lemma_product_bound(v.y as int, normal.y as int, VELOCITY_LIMIT as int, 3 * SHAPE_LIMIT);
        lemma_product_bound(v.z as int, normal.z as int, VELOCITY_LIMIT as int, 3 * SHAPE_LIMIT);
    }
    let dot: i128 = v.x as i128 * normal.x as i128 + v.y as i128 * normal.y as i128 + v.z as i128
        * normal.z as i128;
    proof {
        let (n, d) = (dot as int, speed as int);
        assert(-0x1_0000_0000_0000 <= n / d <= 0x1_0000_0000_0000) by (nonlinear_arith)
            requires
                -0x64_0000_0000_0000 <= n <= 0x64_0000_0000_0000,
                100 < d,
        ;
    }
    floor_div(dot, speed as i128)
}

fn stop(weight: i128, mass: u64, v: i64) -> (f: i128)
    requires
        0 <= weight <= 0x2_0000_0000_0000,
        mass <= MASS_LIMIT,
        -VELOCITY_LIMIT <= v <= VELOCITY_LIMIT,
    ensures
        f == stopping_force(weight as int, mass as int, v as int),
{
    proof {
        lemma_product_bound(weight as int, mass as int, 0x2_0000_0000_0000, MASS_LIMIT as int);
        lemma_product_bound(
            weight * mass,
            v as int,
            0x200_0000_0000_0000_0000_0000,
            VELOCITY_LIMIT as int,
        );
    }
    -floor_div(weight * mass as i128 * v as i128, 1_000_000_000)
}

/// The force of the impact of triangle `j` of the hull on the water, if there is one, and
/// what the triangle swept, remembered for the next frame. `wet` is what the water touches
/// of the triangle and `v` the velocity of its middle.
pub fn slam_force(
    hull: &mut HullCache,
    j: usize,
    wet: &WetTriangle,
    params: &SimParams,
    rot: &Rotation,
    mass: u64,
    dt: u64,
    v: &Point,
) -> (f: Option<Force>)
    requires
        old(hull).wf(),
        old(hull).key is Some,
        j < old(hull).tris@.len(),
        wet.area <= 0x8000_0000_0000_0000,
        rot.valid(),
        0 < params.gamma_max,
        mass <= MASS_LIMIT,
        v.within(VELOCITY_LIMIT as int),
    ensures
        ({
            let slam = Slam {
                dry: wet.dry,
                geom: old(hull).tri_geoms@[j as int],
                wet_area: wet.area,
                before: old(hull).prev_dv@[j as int],
                total_area: old(hull).total_area,
            };
            &&& f == slam_force_at(slam, *params, *rot, mass, dt, *v)
            &&& final(hull).prev_dv@ == old(hull).prev_dv@.update(
                j as int,
                swept(slam, params.slamming_on, *v) as u128,
            )
        }),
        final(hull).wf(),
        final(hull).key == old(hull).key,
        final(hull).tris@ == old(hull).tris@,
        final(hull).tri_geoms@ == old(hull).tri_geoms@,
        final(hull).total_area == old(hull).total_area,
{
    if wet.dry || !params.slamming_on {
        hull.prev_dv.set(j, 0);
        return None;
    }
    let geom: Option<TriGeom> = hull.tri_geoms[j];
    let before: u128 = hull.prev_dv[j];
    match geom {
        None => {
            assert(hull.prev_dv@ =~= hull.prev_dv@.update(j as int, before));
            None
        },
        Some(g) => {
            let speed: u64 = crate::geom::integer_sqrt(v.length_squared());
            proof {
                assert(old(hull).tri_geoms@[j as int] == Some(g));
                assert(old(hull).prev_dv@[j as int] <= SWEEP_LIMIT);
                lemma_length_bound(*v, VELOCITY_LIMIT as int);
                lemma_area_in_sum(hull.tri_geoms@, j as int);
                assert(wet.area * speed <= 0x8000_0000_0000_0000 * 0x2000_0000) by (nonlinear_arith)
                    requires
                        0 <= wet.area <= 0x8000_0000_0000_0000,
                        0 <= speed <= 0x2000_0000,
                ;
            }
            let dv: u128 = wet.area * speed as u128;
            hull.prev_dv.set(j, dv);
            if speed <= 100 {
                return None;
            }
            let dt: u64 = if dt < 100_000 {
                100_000
            } else {
                dt
            };
            let gamma: u128 = violence_of(dv, before, g.area, dt);
            let normal: Point = rotate(rot, &g.normal);
            let cos: i128 = facing_of(v, &normal, speed);
            if cos <= 0 || gamma == 0 {
                return None;
            }
            let s: i128 = saturation_of(gamma, params.gamma_max);
            let share: i128 = ((2 * g.area as u128 * 1_000_000) / hull.total_area) as i128;
            proof {
                let (num, den) = (2 * g.area * 1_000_000, hull.total_area as int);
                assert(0 <= num / den <= 2_000_000) by (nonlinear_arith)
                    requires
                        0 <= num <= 2_000_000 * den,
                        0 < den,
                ;
            }
            let faced: i128 = millionth(
                s,
                cos,
                Ghost(1_000_000),
                Ghost(0x1_0000_0000_0000),
            );
            let weight: i128 = millionth(
                faced,
                share,
                Ghost(0x1_0000_0000_0000),
                Ghost(2_000_000),
            );
            Some(Force { x: stop(weight, mass, v.x), y: stop(weight, mass, v.y), z: stop(weight, mass, v.z) })
        },
    }
}

/// Where the middle of a triangle of the hull is in the world: the point whose velocity
/// [`slam_force`] asks for.
pub fn slam_centre(geom: &TriGeom, pose: &Pose) -> (p: Point)
    requires
        geom.centroid.within(SHAPE_LIMIT as int),
        pose.valid(),
    ensures
        p == pose.of(geom.centroid),
{
    to_world(&pose.pos, &pose.rot, &geom.centroid)
}

/// Out of the water, or with the model off, nothing slams and nothing is remembered.
pub proof fn law_a_dry_triangle_does_not_slam(
    slam: Slam,
    params: SimParams,
    rot: Rotation,
    mass: u64,
    dt: u64,
    v: Point,
)
    requires
        slam.dry || !params.slamming_on,
    ensures
        slam_force_at(slam, params, rot, mass, dt, v) is None,
        swept(slam, params.slamming_on, v) == 0,
{
}

// ---- Clipped volume ------------------------------------------------------------------

/// The submerged part of the hull.
pub open spec fn clipped_hull(tris: Seq<Triangle>, pose: Pose) -> Seq<Triangle>
    decreases tris.len(),
{
    if tris.len() == 0 {
        Seq::empty()
    } else {
        clipped_hull(tris.drop_last(), pose) + submerged(
            tris.last().placed(pose.pos, pose.rot),
            WATER_LEVEL,
        )
    }
}

/// The hull is clipped where the pose puts it, so that what holds of a mesh in the world holds of
/// the body in the water.
pub proof fn law_the_placed_hull_is_clipped(tris: Seq<Triangle>, pose: Pose)
    ensures
        clipped_hull(tris, pose) == clipped(placed_hull(tris, pose.pos, pose.rot), WATER_LEVEL),
    decreases tris.len(),
{
    let world = placed_hull(tris, pose.pos, pose.rot);
    if tris.len() > 0 {
        law_the_placed_hull_is_clipped(tris.drop_last(), pose);
        assert(world.drop_last() =~= placed_hull(tris.drop_last(), pose.pos, pose.rot));
        assert(world.last() == tris.last().placed(pose.pos, pose.rot));
    }
}

/// The submerged part of the hull.
fn clip_hull(cache: &HullCache, pose: &Pose) -> (clipped: Vec<Triangle>)
    requires
        cache.wf(),
        pose.valid(),
    ensures
        clipped@ == clipped_hull(cache.tris@, *pose),
        clipped@.len() <= 2 * cache.tris@.len(),
        forall|i: int|
            0 <= i < clipped@.len() ==> (#[trigger] clipped@[i]).within(HULL_LIMIT as int),
{
    let mut clipped: Vec<Triangle> = Vec::new();
    let mut j: usize = 0;
    while j < cache.tris.len()
        invariant
            cache.wf(),
            pose.valid(),
            j <= cache.tris.len(),
            clipped@ == clipped_hull(cache.tris@.take(j as int), *pose),
            clipped@.len() <= 2 * j,
            forall|i: int|
                0 <= i < clipped@.len() ==> (#[trigger] clipped@[i]).within(HULL_LIMIT as int),
        decreases cache.tris.len() - j,
    {
        let tri: Triangle = cache.tris[j];
        assert(cache.tris@[j as int].within(SHAPE_LIMIT as int));
        assert(cache.tris@.take(j + 1).drop_last() =~= cache.tris@.take(j as int));
        let ghost before = clipped@;
        let ghost part = submerged(tri.placed(pose.pos, pose.rot), WATER_LEVEL);
        if world_y(&pose.pos, &pose.rot, &tri.a) > WATER_LEVEL && world_y(
            &pose.pos,
            &pose.rot,
            &tri.b,
        ) > WATER_LEVEL && world_y(&pose.pos, &pose.rot, &tri.c) > WATER_LEVEL {
            proof {
                super::hydro::law_clipping_is_all_or_nothing_off_the_waterline(
                    tri.placed(pose.pos, pose.rot),
                    WATER_LEVEL,
                );
                assert(before + part =~= before);
            }
        } else {
            let world: Triangle = tri_to_world(&tri, &pose.pos, &pose.rot);
            clip_triangle_below(&world, WATER_LEVEL, &mut clipped);
            assert forall|i: int| 0 <= i < clipped@.len() implies (#[trigger] clipped@[i]).within(
                HULL_LIMIT as int,
            ) by {
                if i < before.len() {
                    assert(clipped@[i] == before[i]);
                } else {
                    assert(clipped@[i] == part[i - before.len()]);
                }
            }
        }
        j = j + 1;
    }
    assert(cache.tris@.take(cache.tris@.len() as int) =~= cache.tris@);
    clipped
}

/// Whether `r` is the largest number whose cube does not exceed `n`.
pub open spec fn is_floor_cbrt(r: nat, n: nat) -> bool {
    r * r * r <= n < (r + 1) * (r + 1) * (r + 1)
}

/// The cube root of `n`, rounded down.
pub open spec fn floor_cbrt(n: nat) -> nat {
    choose|r: nat| is_floor_cbrt(r, n)
}

proof fn lemma_cube_grows(a: nat, b: nat)
    requires
        a <= b,
    ensures
        a * a * a <= b * b * b,
{
    assert(a * a <= b * b) by (nonlinear_arith)
        requires
            0 <= a <= b,
    ;
    assert(a * a * a <= b * b * b) by (nonlinear_arith)
        requires
            0 <= a * a <= b * b,
            0 <= a <= b,
    ;
}

/// Only one number is the rounded-down cube root of `n`.
pub(crate) proof fn lemma_floor_cbrt_unique(r: nat, n: nat)
    requires
        is_floor_cbrt(r, n),
    ensures
        floor_cbrt(n) == r,
{
    let c = floor_cbrt(n);
    assert(is_floor_cbrt(c, n));
    if c < r {
        lemma_cube_grows(c + 1, r);
    }
    if r < c {
        lemma_cube_grows(r + 1, c);
    }
}

/// The cube root of `n`, rounded down.
fn integer_cbrt(n: u128) -> (r: u64)
    requires
        n < 0x200_0000_0000_0000_0000_0000_0000,
    ensures
        r == floor_cbrt(n as nat),
        r <= 0x8_0000_0000,
{
    let mut low: u64 = 0;
    let mut high: u64 = 0x8_0000_0000;
    assert(0x8_0000_0000u64 * 0x8_0000_0000u64 * 0x8_0000_0000u64
        == 0x200_0000_0000_0000_0000_0000_0000) by (nonlinear_arith);
    while high - low > 1
        invariant
            low < high <= 0x8_0000_0000,
            low * low * low <= n < high * high * high,
        decreases high - low,
    {
        let mid: u64 = low + (high - low) / 2;
        assert(mid * mid <= 0x8_0000_0000 * 0x8_0000_0000) by (nonlinear_arith)
            requires
                0 <= mid <= 0x8_0000_0000,
        ;
        assert(mid * mid * mid <= 0x40_0000_0000_0000_0000 * 0x8_0000_0000) by (nonlinear_arith)
            requires
                0 <= mid * mid <= 0x40_0000_0000_0000_0000,
                0 <= mid <= 0x8_0000_0000,
        ;
        let m: u128 = mid as u128;
        if m * m * m <= n {
            low = mid;
        } else {
            high = mid;
        }
    }
    proof {
        assert(is_floor_cbrt(low as nat, n as nat));
        lemma_floor_cbrt_unique(low as nat, n as nat);
    }
    low
}

/// The weight of the displaced water.
pub open spec fn buoyant_lift(sixfold: int) -> int {
    (sixfold * 981) / 600_000_000_000
}

/// The force at the centre of buoyancy: straight up.
pub fn buoyant_force(b: &Buoyancy) -> (f: Force)
    requires
        0 <= b.sixfold <= 0x200_0000_0000_0000_0000_0000_0000,
    ensures
        f == (Force { x: 0, y: buoyant_lift(b.sixfold as int) as i128, z: 0 }),
{
    Force { x: 0, y: floor_div(b.sixfold * 981, 600_000_000_000), z: 0 }
}

/// The drag on the whole body per speed, at the speed `speed` and the submerged volume
/// `volume`: a part that grows with the speed, on the body's cross-section, and one that
/// does not.
pub open spec fn body_resistance(volume: int, speed: int, coeff: int) -> int {
    let r = floor_cbrt(volume as nat) as int;
    (((250 * (r * r) * speed + 1_500 * volume) / 1_000_000) * coeff) / 1_000_000
}

/// The drag on the whole body along one axis.
pub open spec fn body_drag_part(volume: int, speed: int, coeff: int, v: int) -> int {
    -((body_resistance(volume, speed, coeff) * v) / 1_000_000_000_000)
}

/// The drag on the whole body.
pub open spec fn body_drag_at(b: Buoyancy, params: SimParams, v: Point) -> Force {
    let (volume, speed, c) = (b.sixfold as int / 6, speed_of(v) as int, params.drag_coeff as int);
    Force {
        x: body_drag_part(volume, speed, c, v.x as int) as i128,
        y: body_drag_part(volume, speed, c, v.y as int) as i128,
        z: body_drag_part(volume, speed, c, v.z as int) as i128,
    }
}

fn resistance_of(volume: u128, speed: u64, coeff: u32) -> (k: i128)
    requires
        volume <= 0x80_0000_0000_0000_0000_0000_0000,
        speed <= 0x2000_0000,
        coeff <= COEFF_LIMIT,
    ensures
        k == body_resistance(volume as int, speed as int, coeff as int),
        0 <= k <= 0x2_0000_0000_0000_0000_0000_0000,
{
    let r: u64 = integer_cbrt(volume);
    proof {
        assert(0 <= r * r <= 0x40_0000_0000_0000_0000) by (nonlinear_arith)
            requires
                0 <= r <= 0x8_0000_0000,
        ;
        assert(0 <= 250 * (r * r) * speed <= 250 * 0x40_0000_0000_0000_0000 * 0x2000_0000)
            by (nonlinear_arith)
            requires
                0 <= r * r <= 0x40_0000_0000_0000_0000,
                0 <= speed <= 0x2000_0000,
        ;
    }
    let sum: u128 = 250 * (r as u128 * r as u128) * speed as u128 + 1_500 * volume;
    let s: i128 = (sum / 1_000_000) as i128;
    millionth(
        s,
        coeff as i128,
        Ghost(0x4000_0000_0000_0000_0000_0000),
        Ghost(0x40_0000),
    )
}

fn drag_part(k: i128, v: i64) -> (f: i128)
    requires
        0 <= k <= 0x2_0000_0000_0000_0000_0000_0000,
        -VELOCITY_LIMIT <= v <= VELOCITY_LIMIT,
    ensures
        f == -((k * v) / 1_000_000_000_000),
{
    proof {
        lemma_product_bound(
            k as int,
            v as int,
            0x2_0000_0000_0000_0000_0000_0000,
            VELOCITY_LIMIT as int,
        );
    }
    -floor_div(k * v as i128, 1_000_000_000_000)
}

/// The drag on the whole body, at the centre of buoyancy: this method has no elements of
/// its own to drag. `v` is the velocity of the body.
pub fn body_drag(b: &Buoyancy, params: &SimParams, v: &Point) -> (f: Force)
    requires
        0 <= b.sixfold <= 0x200_0000_0000_0000_0000_0000_0000,
        params.drag_coeff <= COEFF_LIMIT,
        v.within(VELOCITY_LIMIT as int),
    ensures
        f == body_drag_at(*b, *params, *v),
{
    let speed: u64 = crate::geom::integer_sqrt(v.length_squared());
    proof {
        lemma_length_bound(*v, VELOCITY_LIMIT as int);
    }
    let volume: u128 = b.sixfold as u128 / 6;
    let k: i128 = resistance_of(volume, speed, params.drag_coeff);
    Force { x: drag_part(k, v.x), y: drag_part(k, v.y), z: drag_part(k, v.z) }
}

/// What damps the body's turning, per turning rate.
pub open spec fn turning_resistance(volume: int, length: int, coeff: int) -> int {
    ((((volume / 1_000_000_000_000) * (length * length)) / 1_000_000) * coeff) / 1_000_000
}

/// The damping torque about one axis.
pub open spec fn body_torque_part(volume: int, length: int, coeff: int, rate: int) -> int {
    -((20 * turning_resistance(volume, length, coeff) * rate) / 1_000_000_000_000)
}

/// The torque that damps the turning of the body.
pub open spec fn body_torque_at(b: Buoyancy, params: SimParams, rate: Point) -> Force {
    let (volume, l, c) = (
        b.sixfold as int / 6,
        params.shape.length as int,
        params.drag_coeff as int,
    );
    Force {
        x: body_torque_part(volume, l, c, rate.x as int) as i128,
        y: body_torque_part(volume, l, c, rate.y as int) as i128,
        z: body_torque_part(volume, l, c, rate.z as int) as i128,
    }
}

fn torque_part(t: i128, rate: i64) -> (f: i128)
    requires
        0 <= t <= 0x2000_0000_0000_0000_0000_0000,
        -VELOCITY_LIMIT <= rate <= VELOCITY_LIMIT,
    ensures
        f == -((20 * t * rate) / 1_000_000_000_000),
{
    proof {
        lemma_product_bound(
            20 * t,
            rate as int,
            0x2_8000_0000_0000_0000_0000_0000,
            VELOCITY_LIMIT as int,
        );
    }
    -floor_div(20 * t * rate as i128, 1_000_000_000_000)
}

/// The torque that damps the turning of the body, which turns at `rate`.
pub fn body_torque(b: &Buoyancy, params: &SimParams, rate: &Point) -> (f: Force)
    requires
        0 <= b.sixfold <= 0x200_0000_0000_0000_0000_0000_0000,
        params.drag_coeff <= COEFF_LIMIT,
        params.shape.valid(),
        rate.within(VELOCITY_LIMIT as int),
    ensures
        f == body_torque_at(*b, *params, *rate),
{
    let v: i128 = floor_div(b.sixfold, 6);
    let v: i128 = floor_div(v, 1_000_000_000_000);
    let l: i128 = params.shape.length as i128;
    proof {
        lemma_product_bound(l as int, l as int, SHAPE_LIMIT as int, SHAPE_LIMIT as int);
        assert(0 <= l * l) by (nonlinear_arith)
            requires
                0 <= l,
        ;
    }
    let t: i128 = millionth(v, l * l, Ghost(0x8000_0000_0000_0000), Ghost(0x4000_0000_0000));
    let t: i128 = millionth(
        t,
        params.drag_coeff as i128,
        Ghost(0x400_0000_0000_0000_0000_0000),
        Ghost(0x40_0000),
    );
    Force { x: torque_part(t, rate.x), y: torque_part(t, rate.y), z: torque_part(t, rate.z) }
}

// ---- One frame -----------------------------------------------------------------------

/// What the water touches of the body, by the method in force.
pub enum Elements {
    Cells(Vec<WetCell>),
    /// For each triangle of the hull.
    Faces(Vec<WetTriangle>),
    /// The submerged volume and its centre, unless next to nothing is submerged.
    Body(Option<Buoyancy>),
}

impl Elements {
    /// Whether every element is one that a body in the tank can have.
    pub open spec fn valid(&self) -> bool {
        match self {
            Elements::Cells(cells) => forall|i: int|
                0 <= i < cells@.len() ==> (#[trigger] cells@[i]).volume
                    <= 0x100_0000_0000_0000_0000,
            Elements::Faces(wet) => forall|j: int|
                0 <= j < wet@.len() ==> (#[trigger] wet@[j]).valid(),
            Elements::Body(b) => b matches Some(b) ==> 0 <= b.sixfold
                <= 0x200_0000_0000_0000_0000_0000_0000,
        }
    }
}

impl Elements {
    /// Whether these are what the water touches of the body, by the method in force. `tris` is
    /// the body's hull, for the methods that use one.
    pub open spec fn are_of(&self, params: SimParams, tris: Seq<Triangle>, pose: Pose) -> bool {
        match params.method {
            Method::VoxelGrid => {
                &&& self matches Elements::Cells(cells)
                &&& cells@ == wet_cells(
                    grid_of(params.shape, params.voxel_res).centres(params.shape),
                    longest_side(params.shape),
                    params.voxel_res as int,
                    pose,
                )
            },
            Method::SurfacePressure => {
                &&& self matches Elements::Faces(wet)
                &&& wet@.len() == tris.len()
                &&& forall|j: int| 0 <= j < wet@.len() ==> (#[trigger] wet@[j]).is_of(tris[j], pose)
            },
            Method::ClippedVolume => {
                &&& self matches Elements::Body(b)
                &&& b == buoyancy(clipped_hull(tris, pose), WATER_LEVEL)
                &&& b is Some ==> LEAST_SIXFOLD <= b->0.sixfold
                    <= 0x200_0000_0000_0000_0000_0000_0000
            },
        }
    }
}

/// Finds what the water touches of the body, by the method that the panel selects; what
/// the method keeps from frame to frame is brought up to date first, and the other
/// method's is left alone. `headings` are the directions of the hull's segments.
pub fn apply_hydro_forces(
    params: &SimParams,
    headings: &[Heading],
    voxels: &mut VoxelCache,
    hull: &mut HullCache,
    pose: &Pose,
) -> (elements: Elements)
    requires
        params.valid(),
        headings_valid(headings@),
        headings.len() == params.segments(),
        old(voxels).wf(),
        old(hull).wf(),
        pose.valid(),
    ensures
        final(voxels).wf(),
        final(hull).wf(),
        elements.valid(),
        elements.are_of(*params, final(hull).tris@, *pose),
        params.method is VoxelGrid ==> {
            &&& *final(hull) == *old(hull)
            &&& final(voxels).key == Some(VoxelKey { shape: params.shape, res: params.voxel_res })
        },
        !(params.method is VoxelGrid) ==> {
            &&& *final(voxels) == *old(voxels)
            &&& final(hull).key == Some(HullKey { shape: params.shape, res: params.hull_res })
            &&& old(hull).key == final(hull).key ==> *final(hull) == *old(hull)
            &&& old(hull).key != final(hull).key ==> {
                &&& final(hull).tris@ == super::hydro::hull(
                    params.shape,
                    headings@,
                    params.rings(),
                )
                &&& forall|i: int|
                    0 <= i < final(hull).prev_dv@.len() ==> #[trigger] final(hull).prev_dv@[i] == 0
            }
        },
{
    match params.method {
        Method::VoxelGrid => {
            refresh_voxel_cache(params, voxels);
            Elements::Cells(find_wet_cells(voxels, params.voxel_res, pose))
        },
        Method::SurfacePressure => {
            refresh_hull_cache(params, headings, hull);
            Elements::Faces(find_wet_triangles(hull, pose))
        },
        Method::ClippedVolume => {
            refresh_hull_cache(params, headings, hull);
            let clipped: Vec<Triangle> = clip_hull(hull, pose);
            Elements::Body(submerged_volume_centroid(&clipped, WATER_LEVEL))
        },
    }
}

/// A hull wholly above the water is not touched by it.
pub proof fn law_no_water_no_force(tris: Seq<Triangle>, pose: Pose)
    requires
        forall|j: int| 0 <= j < tris.len() ==> dry(#[trigger] tris[j], pose),
    ensures
        clipped_hull(tris, pose) == Seq::<Triangle>::empty(),
        buoyancy(clipped_hull(tris, pose), WATER_LEVEL) is None,
        forall|j: int|
            0 <= j < tris.len() ==> #[trigger] triangle_faces(tris[j], pose) == Seq::<
                WetFace,
            >::empty(),
    decreases tris.len(),
{
    assert forall|j: int| 0 <= j < tris.len() implies #[trigger] triangle_faces(tris[j], pose)
        == Seq::<WetFace>::empty() by {
        assert(dry(tris[j], pose));
        super::hydro::law_clipping_is_all_or_nothing_off_the_waterline(
            tris[j].placed(pose.pos, pose.rot),
            WATER_LEVEL,
        );
        let none = submerged(tris[j].placed(pose.pos, pose.rot), WATER_LEVEL);
        assert(none =~= none.take(0));
        lemma_pick_none(
            none,
            |t: Triangle| geometry(t) is Some,
            |t: Triangle|
                WetFace {
                    at: geometry(t)->0.centroid,
                    normal: geometry(t)->0.normal,
                    area: geometry(t)->0.area,
                },
        );
    }
    if tris.len() > 0 {
        assert forall|j: int| 0 <= j < tris.drop_last().len() implies dry(
            #[trigger] tris.drop_last()[j],
            pose,
        ) by {
            assert(dry(tris[j], pose));
        }
        law_no_water_no_force(tris.drop_last(), pose);
        assert(dry(tris.last(), pose));
        super::hydro::law_clipping_is_all_or_nothing_off_the_waterline(
            tris.last().placed(pose.pos, pose.rot),
            WATER_LEVEL,
        );
    }
    assert(clipped_hull(tris, pose) =~= Seq::<Triangle>::empty());
}

/// The velocities of the body that the forces on its elements depend on, in the order of
/// [`Elements`].
pub enum Motion {
    /// Of the middle of each wet cell.
    Cells(Vec<Point>),
    /// For each triangle of the hull.
    Faces(Vec<TriangleMotion>),
    /// Of the body as a whole, and how fast it turns.
    Body(Point, Point),
}

/// The velocities at one triangle of the hull.
pub struct TriangleMotion {
    /// Of each of its wet faces.
    pub faces: Vec<Point>,
    /// Of its own middle.
    pub middle: Point,
}

/// Whether no velocity is faster than the body can be.
pub open spec fn slow(v: Seq<Point>) -> bool {
    forall|i: int| 0 <= i < v.len() ==> (#[trigger] v[i]).within(VELOCITY_LIMIT as int)
}

impl TriangleMotion {
    /// Whether these are velocities of the faces of `wet`.
    pub open spec fn of(&self, wet: WetTriangle) -> bool {
        &&& self.faces@.len() == wet.faces@.len()
        &&& slow(self.faces@)
        &&& self.middle.within(VELOCITY_LIMIT as int)
    }
}

impl Motion {
    /// Whether these are velocities of `elements`.
    pub open spec fn of(&self, elements: Elements) -> bool {
        match (self, elements) {
            (Motion::Cells(v), Elements::Cells(cells)) => v@.len() == cells@.len() && slow(v@),
            (Motion::Faces(m), Elements::Faces(wet)) => {
                &&& m@.len() == wet@.len()
                &&& forall|j: int| 0 <= j < m@.len() ==> (#[trigger] m@[j]).of(wet@[j])
            },
            (Motion::Body(linear, angular), Elements::Body(_)) => linear.within(
                VELOCITY_LIMIT as int,
            ) && angular.within(VELOCITY_LIMIT as int),
            _ => false,
        }
    }
}

/// A force on the body, and where it acts.
#[derive(Clone, Copy, Debug, PartialEq, Eq, Structural)]
pub struct Push {
    pub at: Long,
    pub force: Force,
}

/// Everything by which the water moves the body in a frame.
pub struct Pushes {
    pub forces: Vec<Push>,
    pub torque: Option<Force>,
}

/// What a frame reckons with besides the elements: the skin-friction coefficient in
/// millionths, the body's mass, and the length of the frame.
#[derive(Clone, Copy, Debug, PartialEq, Eq, Structural)]
pub struct FrameInput {
    pub friction: u64,
    pub mass: u64,
    pub dt: u64,
}

/// A place in the world.
pub open spec fn place(p: Point) -> Long {
    Long { x: p.x as i128, y: p.y as i128, z: p.z as i128 }
}

/// The pushes on wet cells.
pub open spec fn cell_pushes(cells: Seq<WetCell>, params: SimParams, v: Seq<Point>) -> Seq<Push> {
    Seq::new(
        cells.len(),
        |i: int| Push { at: place(cells[i].at), force: cell_force_at(cells[i], params, v[i]) },
    )
}

/// The pushes on the wet faces of a triangle.
pub open spec fn face_pushes(
    faces: Seq<WetFace>,
    params: SimParams,
    c_f: int,
    v: Seq<Point>,
) -> Seq<Push> {
    Seq::new(
        faces.len(),
        |i: int| Push { at: place(faces[i].at), force: face_force_at(faces[i], params, c_f, v[i]) },
    )
}

/// What triangle `j` of the hull is, and was, to the water.
pub open spec fn slam_of(hull: HullCache, j: int, wet: WetTriangle) -> Slam {
    Slam {
        dry: wet.dry,
        geom: hull.tri_geoms@[j],
        wet_area: wet.area,
        before: hull.prev_dv@[j],
        total_area: hull.total_area,
    }
}

/// The pushes on triangle `j` of the hull: on its wet faces, and of its impact.
pub open spec fn triangle_pushes(
    hull: HullCache,
    j: int,
    wet: WetTriangle,
    motion: TriangleMotion,
    params: SimParams,
    pose: Pose,
    input: FrameInput,
) -> Seq<Push> {
    let slam = slam_of(hull, j, wet);
    face_pushes(wet.faces@, params, input.friction as int, motion.faces@) + match slam_force_at(
        slam,
        params,
        pose.rot,
        input.mass,
        input.dt,
        motion.middle,
    ) {
        Some(force) => seq![Push { at: place(pose.of(slam.geom->0.centroid)), force }],
        None => Seq::empty(),
    }
}

/// The pushes on the first `n` triangles of the hull.
pub open spec fn hull_pushes(
    hull: HullCache,
    wet: Seq<WetTriangle>,
    motion: Seq<TriangleMotion>,
    params: SimParams,
    pose: Pose,
    input: FrameInput,
    n: int,
) -> Seq<Push>
    decreases n,
{
    if n <= 0 {
        Seq::empty()
    } else {
        hull_pushes(hull, wet, motion, params, pose, input, n - 1) + triangle_pushes(
            hull,
            n - 1,
            wet[n - 1],
            motion[n - 1],
            params,
            pose,
            input,
        )
    }
}

/// The pushes on the submerged part as a whole: its lift, and its drag.
pub open spec fn volume_pushes(b: Option<Buoyancy>, params: SimParams, v: Point) -> Seq<Push> {
    match b {
        None => Seq::empty(),
        Some(b) => {
            let at = Long { x: b.x, y: b.y, z: b.z };
            let lift = Push {
                at,
                force: Force { x: 0, y: buoyant_lift(b.sixfold as int) as i128, z: 0 },
            };
            if params.drag_on {
                seq![lift, Push { at, force: body_drag_at(b, params, v) }]
            } else {
                seq![lift]
            }
        },
    }
}

/// The pushes on the body, in the order in which they are applied.
pub open spec fn pushes_of(
    elements: Elements,
    motion: Motion,
    hull: HullCache,
    params: SimParams,
    pose: Pose,
    input: FrameInput,
) -> Seq<Push> {
    match (elements, motion) {
        (Elements::Cells(cells), Motion::Cells(v)) => cell_pushes(cells@, params, v@),
        (Elements::Faces(wet), Motion::Faces(m)) => hull_pushes(
            hull,
            wet@,
            m@,
            params,
            pose,
            input,
            wet@.len() as int,
        ),
        (Elements::Body(b), Motion::Body(linear, _)) => volume_pushes(b, params, linear),
        _ => Seq::empty(),
    }
}

/// The torque on the body: the drag on its turning, where the submerged part counts as a whole.
pub open spec fn torque_of(elements: Elements, motion: Motion, params: SimParams) -> Option<Force> {
    match (elements, motion) {
        (Elements::Body(Some(b)), Motion::Body(_, angular)) if params.drag_on => Some(
            body_torque_at(b, params, angular),
        ),
        _ => None,
    }
}

fn push_at(p: &Point, force: Force) -> (push: Push)
    ensures
        push == (Push { at: place(*p), force }),
{
    Push { at: Long { x: p.x as i128, y: p.y as i128, z: p.z as i128 }, force }
}

/// The pushes on wet cells.
fn push_cells(cells: &Vec<WetCell>, params: &SimParams, v: &Vec<Point>) -> (forces: Vec<Push>)
    requires
        params.drag_coeff <= COEFF_LIMIT,
        cells@.len() == v@.len(),
        slow(v@),
        forall|i: int|
            0 <= i < cells@.len() ==> (#[trigger] cells@[i]).volume <= 0x100_0000_0000_0000_0000,
    ensures
        forces@ == cell_pushes(cells@, *params, v@),
{
    let mut forces: Vec<Push> = Vec::new();
    let mut i: usize = 0;
    while i < cells.len()
        invariant
            i <= cells.len(),
            params.drag_coeff <= COEFF_LIMIT,
            cells@.len() == v@.len(),
            slow(v@),
            forall|k: int|
                0 <= k < cells@.len() ==> (#[trigger] cells@[k]).volume
                    <= 0x100_0000_0000_0000_0000,
            forces@ =~= cell_pushes(cells@, *params, v@).take(i as int),
        decreases cells.len() - i,
    {
        let cell: WetCell = cells[i];
        assert(cells@[i as int].volume <= 0x100_0000_0000_0000_0000);
        assert(v@[i as int].within(VELOCITY_LIMIT as int));
        forces.push(push_at(&cell.at, cell_force(&cell, params, &v[i])));
        i = i + 1;
    }
    forces
}

/// Adds the pushes on the wet faces of a triangle.
fn push_faces(
    wet: &WetTriangle,
    params: &SimParams,
    c_f: u64,
    v: &Vec<Point>,
    forces: &mut Vec<Push>,
)
    requires
        wet.valid(),
        params.drag_coeff <= COEFF_LIMIT,
        params.pressure_drag_coeff <= COEFF_LIMIT,
        c_f <= FRICTION_LIMIT,
        wet.faces@.len() == v@.len(),
        slow(v@),
    ensures
        final(forces)@ == old(forces)@ + face_pushes(wet.faces@, *params, c_f as int, v@),
{
    let ghost before = forces@;
    let ghost all = face_pushes(wet.faces@, *params, c_f as int, v@);
    let mut i: usize = 0;
    assert(before + all.take(0) =~= before);
    while i < wet.faces.len()
        invariant
            i <= wet.faces@.len(),
            wet.valid(),
            params.drag_coeff <= COEFF_LIMIT,
            params.pressure_drag_coeff <= COEFF_LIMIT,
            c_f <= FRICTION_LIMIT,
            wet.faces@.len() == v@.len(),
            slow(v@),
            all == face_pushes(wet.faces@, *params, c_f as int, v@),
            forces@ =~= before + all.take(i as int),
        decreases wet.faces@.len() - i,
    {
        let face: WetFace = wet.faces[i];
        assert(face_valid(wet.faces@[i as int]));
        assert(v@[i as int].within(VELOCITY_LIMIT as int));
        forces.push(push_at(&face.at, face_force(&face, params, c_f, &v[i])));
        i = i + 1;
    }
    assert(all.take(all.len() as int) =~= all);
}

/// The pushes on the triangles of the hull; what each swept is remembered.
fn push_hull(
    wet: &Vec<WetTriangle>,
    motion: &Vec<TriangleMotion>,
    hull: &mut HullCache,
    params: &SimParams,
    pose: &Pose,
    input: &FrameInput,
) -> (forces: Vec<Push>)
    requires
        old(hull).wf(),
        old(hull).key is Some,
        wet@.len() == old(hull).tris@.len(),
        motion@.len() == wet@.len(),
        forall|j: int| 0 <= j < wet@.len() ==> (#[trigger] wet@[j]).valid(),
        forall|j: int| 0 <= j < wet@.len() ==> (#[trigger] motion@[j]).of(wet@[j]),
        params.drag_coeff <= COEFF_LIMIT,
        params.pressure_drag_coeff <= COEFF_LIMIT,
        0 < params.gamma_max,
        pose.valid(),
        input.friction <= FRICTION_LIMIT,
        input.mass <= MASS_LIMIT,
    ensures
        forces@ == hull_pushes(
            *old(hull),
            wet@,
            motion@,
            *params,
            *pose,
            *input,
            wet@.len() as int,
        ),
        final(hull).wf(),
        final(hull).key == old(hull).key,
        final(hull).tris@ == old(hull).tris@,
        final(hull).tri_geoms@ == old(hull).tri_geoms@,
        final(hull).total_area == old(hull).total_area,
        forall|j: int|
            0 <= j < wet@.len() ==> #[trigger] final(hull).prev_dv@[j] == swept(
                slam_of(*old(hull), j, wet@[j]),
                params.slamming_on,
                motion@[j].middle,
            ) as u128,
{
    let mut forces: Vec<Push> = Vec::new();
    let mut j: usize = 0;
    while j < wet.len()
        invariant
            j <= wet@.len(),
            hull.wf(),
            old(hull).wf(),
            hull.key is Some,
            hull.key == old(hull).key,
            hull.tris@ == old(hull).tris@,
            hull.tri_geoms@ == old(hull).tri_geoms@,
            hull.total_area == old(hull).total_area,
            wet@.len() == old(hull).tris@.len(),
            motion@.len() == wet@.len(),
            forall|k: int| 0 <= k < wet@.len() ==> (#[trigger] wet@[k]).valid(),
            forall|k: int| 0 <= k < wet@.len() ==> (#[trigger] motion@[k]).of(wet@[k]),
            params.drag_coeff <= COEFF_LIMIT,
            params.pressure_drag_coeff <= COEFF_LIMIT,
            0 < params.gamma_max,
            pose.valid(),
            input.friction <= FRICTION_LIMIT,
            input.mass <= MASS_LIMIT,
            forces@ == hull_pushes(*old(hull), wet@, motion@, *params, *pose, *input, j as int),
            forall|k: int|
                0 <= k < j ==> #[trigger] hull.prev_dv@[k] == swept(
                    slam_of(*old(hull), k, wet@[k]),
                    params.slamming_on,
                    motion@[k].middle,
                ) as u128,
            forall|k: int|
                j <= k < wet@.len() ==> #[trigger] hull.prev_dv@[k] == old(hull).prev_dv@[k],
        decreases wet@.len() - j,
    {
        let ghost done = forces@;
        let ghost slam = slam_of(*old(hull), j as int, wet@[j as int]);
        assert(wet@[j as int].valid());
        assert(motion@[j as int].of(wet@[j as int]));
        assert(hull.prev_dv@[j as int] == old(hull).prev_dv@[j as int]);
        let geom: Option<TriGeom> = hull.tri_geoms[j];
        push_faces(&wet[j], params, input.friction, &motion[j].faces, &mut forces);
        let ghost faced = forces@;
        let f: Option<Force> = slam_force(
            hull,
            j,
            &wet[j],
            params,
            &pose.rot,
            input.mass,
            input.dt,
            &motion[j].middle,
        );
        assert(hull.tri_geoms@[j as int] == geom);
        match (f, geom) {
            (Some(force), Some(g)) => {
                let at: Point = slam_centre(&g, pose);
                forces.push(push_at(&at, force));
            },
            _ => {},
        }
        proof {
            let part = triangle_pushes(
                *old(hull),
                j as int,
                wet@[j as int],
                motion@[j as int],
                *params,
                *pose,
                *input,
            );
            assert(f is Some ==> slam.geom is Some);
            assert(forces@ =~= done + part);
        }
        j = j + 1;
    }
    forces
}

/// The pushes of the water on its elements, which move as `motion` says. What the triangles
/// of the hull swept is remembered for the next frame.
pub fn push_body(
    params: &SimParams,
    elements: &Elements,
    motion: &Motion,
    hull: &mut HullCache,
    pose: &Pose,
    input: &FrameInput,
) -> (pushes: Pushes)
    requires
        params.valid(),
        params.drag_coeff <= COEFF_LIMIT,
        params.pressure_drag_coeff <= COEFF_LIMIT,
        0 < params.gamma_max,
        elements.valid(),
        motion.of(*elements),
        elements matches Elements::Faces(wet) ==> old(hull).key is Some && wet@.len() == old(
            hull,
        ).tris@.len(),
        old(hull).wf(),
        pose.valid(),
        input.friction <= FRICTION_LIMIT,
        input.mass <= MASS_LIMIT,
    ensures
        pushes.forces@ == pushes_of(*elements, *motion, *old(hull), *params, *pose, *input),
        pushes.torque == torque_of(*elements, *motion, *params),
        final(hull).wf(),
        !(elements is Faces) ==> *final(hull) == *old(hull),
        elements matches Elements::Faces(wet) ==> {
            &&& final(hull).key == old(hull).key
            &&& final(hull).tris@ == old(hull).tris@
            &&& final(hull).tri_geoms@ == old(hull).tri_geoms@
            &&& final(hull).total_area == old(hull).total_area
            &&& forall|j: int|
                0 <= j < wet@.len() ==> #[trigger] final(hull).prev_dv@[j] == swept(
                    slam_of(*old(hull), j, wet@[j]),
                    params.slamming_on,
                    motion->Faces_0@[j].middle,
                ) as u128
        },
{
    let none: Vec<Push> = Vec::new();
    match (elements, motion) {
        (Elements::Cells(cells), Motion::Cells(v)) => Pushes {
            forces: push_cells(cells, params, v),
            torque: None,
        },
        (Elements::Faces(wet), Motion::Faces(m)) => Pushes {
            forces: push_hull(wet, m, hull, params, pose, input),
            torque: None,
        },
        (Elements::Body(Some(b)), Motion::Body(linear, angular)) => {
            let at: Long = Long { x: b.x, y: b.y, z: b.z };
            let mut forces: Vec<Push> = Vec::new();
            forces.push(Push { at, force: buoyant_force(b) });
            if params.drag_on {
                forces.push(Push { at, force: body_drag(b, params, linear) });
                let torque: Force = body_torque(b, params, angular);
                assert(forces@ =~= volume_pushes(Some(*b), *params, *linear));
                Pushes { forces, torque: Some(torque) }
            } else {
                assert(forces@ =~= volume_pushes(Some(*b), *params, *linear));
                Pushes { forces, torque: None }
            }
        },
        _ => {
            assert(none@ =~= Seq::<Push>::empty());
            Pushes { forces: none, torque: None }
        },
    }
}

/// The overlay of forces: every push on the body in the last frame, while it is switched on.
pub struct ForceVectors {
    pub on: bool,
    pub arrows: Vec<Push>,
}

impl Default for ForceVectors {
    fn default() -> (vis: Self)
        ensures
            vis.on,
            vis.arrows@ == Seq::<Push>::empty(),
    {
        ForceVectors { on: true, arrows: Vec::new() }
    }
}

/// The arrows that show these pushes.
pub fn arrows_of(pushes: &[Push], on: bool) -> (arrows: Vec<Push>)
    ensures
        arrows@ == (if on {
            pushes@
        } else {
            Seq::empty()
        }),
{
    let mut arrows: Vec<Push> = Vec::new();
    if !on {
        return arrows;
    }
    let mut i: usize = 0;
    while i < pushes.len()
        invariant
            i <= pushes.len(),
            arrows@ == pushes@.take(i as int),
        decreases pushes.len() - i,
    {
        arrows.push(pushes[i]);
        i = i + 1;
        assert(arrows@ =~= pushes@.take(i as int));
    }
    assert(pushes@.take(i as int) =~= pushes@);
    arrows
}

impl ForceVectors {
    /// Shows the pushes of this frame, and none of an earlier one.
    pub fn record(&mut self, pushes: &Pushes)
        ensures
            final(self).on == old(self).on,
            final(self).arrows@ == (if old(self).on {
                pushes.forces@
            } else {
                Seq::empty()
            }),
    {
        self.arrows = arrows_of(&pushes.forces, self.on);
    }
}

/// Whether the body is wholly above the water, as the method in force sees it: every corner of
/// its hull, or every cell of its grid, which reaches half a cell down from its middle.
pub open spec fn above_water(params: SimParams, tris: Seq<Triangle>, pose: Pose) -> bool {
    if params.method is VoxelGrid {
        forall|i: int|
            0 <= i < grid_of(params.shape, params.voxel_res).centres(params.shape).len() ==> 2
                * params.voxel_res * (pose.of(
                #[trigger] grid_of(params.shape, params.voxel_res).centres(params.shape)[i],
            ).y - WATER_LEVEL) >= longest_side(params.shape)
    } else {
        forall|j: int| 0 <= j < tris.len() ==> dry(#[trigger] tris[j], pose)
    }
}

/// No share of a cell that is half its width above the water is under it.
proof fn lemma_dry_cell(y: int, side: int, res: int)
    requires
        0 < side,
        2 * res * (y - WATER_LEVEL) >= side,
    ensures
        cell_share(y, side, res) <= 0,
{
    let d = (WATER_LEVEL - y) * res;
    assert(2 * d <= -side) by (nonlinear_arith)
        requires
            d == (WATER_LEVEL - y) * res,
            2 * res * (y - WATER_LEVEL) >= side,
    ;
    assert((d * 1_000_000) / side <= -500_000) by (nonlinear_arith)
        requires
            2 * d <= -side,
            0 < side,
    ;
}

proof fn lemma_no_wet_cells(centres: Seq<Point>, side: int, res: int, pose: Pose)
    requires
        0 < side,
        forall|i: int|
            0 <= i < centres.len() ==> 2 * res * (pose.of(#[trigger] centres[i]).y - WATER_LEVEL)
                >= side,
    ensures
        wet_cells(centres, side, res, pose) == Seq::<WetCell>::empty(),
{
    let p = |c: Point| cell_share(pose.of(c).y as int, side, res) > 0;
    let f = |c: Point|
        WetCell {
            at: pose.of(c),
            volume: cell_volume(side, res, cell_share(pose.of(c).y as int, side, res)) as u128,
        };
    lemma_pick_none(centres, p, f);
    assert forall|i: int| 0 <= i < centres.len() implies !p(#[trigger] centres[i]) by {
        lemma_dry_cell(pose.of(centres[i]).y as int, side, res);
    }
    lemma_pick_nothing(centres, p, f, centres.len() as int);
    assert(centres.take(centres.len() as int) =~= centres);
}

proof fn lemma_pick_nothing<A, B>(
    s: Seq<A>,
    p: spec_fn(A) -> bool,
    f: spec_fn(A) -> B,
    n: int,
)
    requires
        0 <= n <= s.len(),
        forall|i: int| 0 <= i < s.len() ==> !p(#[trigger] s[i]),
    ensures
        pick(s.take(n), p, f) == Seq::<B>::empty(),
    decreases n,
{
    if n == 0 {
        lemma_pick_none(s, p, f);
    } else {
        lemma_pick_nothing(s, p, f, n - 1);
        lemma_pick_step(s, n - 1, p, f);
        assert(!p(s[n - 1]));
    }
}

/// A body wholly above the water is neither pushed nor turned by it, whatever the method and
/// the drags that are switched on, and its hull sweeps nothing.
pub proof fn law_a_body_above_the_water_is_left_alone(
    elements: Elements,
    motion: Motion,
    hull: HullCache,
    params: SimParams,
    pose: Pose,
    input: FrameInput,
)
    requires
        params.valid(),
        hull.wf(),
        elements.are_of(params, hull.tris@, pose),
        above_water(params, hull.tris@, pose),
    ensures
        pushes_of(elements, motion, hull, params, pose, input) == Seq::<Push>::empty(),
        torque_of(elements, motion, params) is None,
        elements matches Elements::Faces(wet) ==> forall|j: int, v: Point|
            0 <= j < wet@.len() ==> #[trigger] swept(
                slam_of(hull, j, wet@[j]),
                params.slamming_on,
                v,
            ) == 0,
{
    if !(params.method is VoxelGrid) {
        law_no_water_no_force(hull.tris@, pose);
    } else {
        let centres = grid_of(params.shape, params.voxel_res).centres(params.shape);
        assert(longest_side(params.shape) > 0);
        lemma_no_wet_cells(centres, longest_side(params.shape), params.voxel_res as int, pose);
    }
    if let Elements::Faces(wet) = elements {
        assert forall|j: int| 0 <= j < wet@.len() implies (#[trigger] wet@[j]).dry
            && wet@[j].faces@.len() == 0 by {
            assert(wet@[j].is_of(hull.tris@[j], pose));
            assert(dry(hull.tris@[j], pose));
            assert(triangle_faces(hull.tris@[j], pose).len() == 0);
        }
    }
    law_untouched_means_unpushed(elements, motion, hull, params, pose, input);
}

/// A body that the water touches nowhere is not pushed.
pub proof fn law_untouched_means_unpushed(
    elements: Elements,
    motion: Motion,
    hull: HullCache,
    params: SimParams,
    pose: Pose,
    input: FrameInput,
)
    requires
        match elements {
            Elements::Cells(cells) => cells@.len() == 0,
            Elements::Faces(wet) => forall|j: int|
                0 <= j < wet@.len() ==> (#[trigger] wet@[j]).dry && wet@[j].faces@.len() == 0,
            Elements::Body(b) => b is None,
        },
    ensures
        pushes_of(elements, motion, hull, params, pose, input) == Seq::<Push>::empty(),
{
    if let (Elements::Faces(wet), Motion::Faces(m)) = (elements, motion) {
        lemma_dry_hull(hull, wet@, m@, params, pose, input, wet@.len() as int);
    }
    assert(pushes_of(elements, motion, hull, params, pose, input) =~= Seq::<Push>::empty());
}

proof fn lemma_dry_hull(
    hull: HullCache,
    wet: Seq<WetTriangle>,
    motion: Seq<TriangleMotion>,
    params: SimParams,
    pose: Pose,
    input: FrameInput,
    n: int,
)
    requires
        n <= wet.len(),
        forall|j: int| 0 <= j < wet.len() ==> (#[trigger] wet[j]).dry && wet[j].faces@.len() == 0,
    ensures
        hull_pushes(hull, wet, motion, params, pose, input, n) == Seq::<Push>::empty(),
    decreases n,
{
    if n > 0 {
        lemma_dry_hull(hull, wet, motion, params, pose, input, n - 1);
        assert(wet[n - 1].dry);
        assert(triangle_pushes(hull, n - 1, wet[n - 1], motion[n - 1], params, pose, input)
            =~= Seq::<Push>::empty());
    }
}

// ---- What a frame costs --------------------------------------------------------------

/// The cost of the computation, averaged over windows of about a second.
#[derive(Clone, Copy, Debug, PartialEq, Eq, Structural)]
pub struct PhysicsTiming {
    /// Nanoseconds of computation in this window.
    pub accum: u64,
    pub frames: u32,
    /// Nanoseconds of time that this window has lasted.
    pub window: u64,
    /// Nanoseconds per frame in the last complete window: what is shown.
    pub average: u64,
}

impl PhysicsTiming {
    /// Nothing was measured yet.
    pub fn new() -> (t: PhysicsTiming)
        ensures
            t == (PhysicsTiming { accum: 0, frames: 0, window: 0, average: 0 }),
    {
        PhysicsTiming { accum: 0, frames: 0, window: 0, average: 0 }
    }

    /// Counts a frame of length `delta` whose computation took `cost`. A window that is a
    /// second long is averaged, and the next one begins.
    pub fn record(&mut self, cost: u64, delta: u64)
        requires
            old(self).accum + cost <= u64::MAX,
            old(self).window + delta <= u64::MAX,
            old(self).frames < u32::MAX,
        ensures
            *final(self) == if old(self).window + delta >= 1_000_000_000 {
                PhysicsTiming {
                    accum: 0,
                    frames: 0,
                    window: 0,
                    average: ((old(self).accum + cost) / (old(self).frames + 1)) as u64,
                }
            } else {
                PhysicsTiming {
                    accum: (old(self).accum + cost) as u64,
                    frames: (old(self).frames + 1) as u32,
                    window: (old(self).window + delta) as u64,
                    average: old(self).average,
                }
            },
    {
        self.accum = self.accum + cost;
        self.frames = self.frames + 1;
        self.window = self.window + delta;
        if self.window >= 1_000_000_000 {
            self.average = self.accum / self.frames as u64;
            self.accum = 0;
            self.frames = 0;
            self.window = 0;
        }
    }
}

// ---- The drawn forces ----------------------------------------------------------------

/// The longest arrow drawn.
pub const MAX_ARROW_LEN: i64 = 1_500_000;

/// The largest force along an axis that can be drawn.
pub const ARROW_LIMIT: i64 = 0x1000_0000_0000;

/// A force to draw: where it acts, and the force itself.
#[derive(Clone, Copy, Debug, PartialEq, Eq, Structural)]
pub struct Arrow {
    pub at: Point,
    pub force: Point,
}

/// An arrow as drawn.
#[derive(Clone, Copy, Debug, PartialEq, Eq, Structural)]
pub struct DrawnArrow {
    pub from: Point,
    pub to: Point,
}

/// The strongest of the forces.
pub open spec fn strongest(arrows: Seq<Arrow>) -> nat
    decreases arrows.len(),
{
    if arrows.len() == 0 {
        0
    } else {
        let (rest, last) = (strongest(arrows.drop_last()), speed_of(arrows.last().force));
        if last > rest {
            last
        } else {
            rest
        }
    }
}

/// The tip of an arrow: the strongest force is drawn [`MAX_ARROW_LEN`] long and the others
/// in proportion.
pub open spec fn arrow_tip(arrow: Arrow, max: int) -> Point {
    Point {
        x: (arrow.at.x + (arrow.force.x * MAX_ARROW_LEN) / max) as i64,
        y: (arrow.at.y + (arrow.force.y * MAX_ARROW_LEN) / max) as i64,
        z: (arrow.at.z + (arrow.force.z * MAX_ARROW_LEN) / max) as i64,
    }
}

/// The arrows drawn: none shorter than a millimetre, of which only the head would show.
pub open spec fn drawn_arrows(arrows: Seq<Arrow>) -> Seq<DrawnArrow> {
    let max = strongest(arrows) as int;
    if max == 0 {
        Seq::empty()
    } else {
        pick(
            arrows,
            |a: Arrow| a.at.dist2(arrow_tip(a, max)) > 1_000_000,
            |a: Arrow| DrawnArrow { from: a.at, to: arrow_tip(a, max) },
        )
    }
}

/// No coordinate is longer than the vector.
proof fn lemma_axis_within(p: Point)
    ensures
        -floor_sqrt(p.len2() as nat) <= p.x <= floor_sqrt(p.len2() as nat),
        -floor_sqrt(p.len2() as nat) <= p.y <= floor_sqrt(p.len2() as nat),
        -floor_sqrt(p.len2() as nat) <= p.z <= floor_sqrt(p.len2() as nat),
{
    let (x, y, z) = (p.x as int, p.y as int, p.z as int);
    assert(x * x >= 0 && y * y >= 0 && z * z >= 0) by (nonlinear_arith);
    lemma_floor_sqrt_exists(p.len2() as nat);
    let r = floor_sqrt(p.len2() as nat) as int;
    lemma_root_bounds(x, r);
    lemma_root_bounds(y, r);
    lemma_root_bounds(z, r);
}

proof fn lemma_root_bounds(x: int, r: int)
    requires
        x * x < (r + 1) * (r + 1),
        0 <= r,
    ensures
        -r <= x <= r,
{
    assert(-r <= x <= r) by (nonlinear_arith)
        requires
            x * x < (r + 1) * (r + 1),
            0 <= r,
    ;
}

fn tip_axis(at: i64, force: i64, max: u64) -> (t: i64)
    requires
        -HULL_LIMIT <= at <= HULL_LIMIT,
        -max <= force <= max,
        0 < max,
    ensures
        t == at + (force * MAX_ARROW_LEN) / max as int,
        -2 * HULL_LIMIT <= t <= 2 * HULL_LIMIT,
{
    let shift: i128 = floor_div(force as i128 * 1_500_000, max as i128);
    proof {
        let m = max as int;
        assert(-1_500_000 <= (force * 1_500_000) / m <= 1_500_000) by (nonlinear_arith)
            requires
                -m <= force <= m,
                0 < m,
        ;
    }
    (at as i128 + shift) as i64
}

/// The strongest of the forces.
fn strongest_of(arrows: &[Arrow]) -> (max: u64)
    requires
        forall|i: int|
            0 <= i < arrows.len() ==> (#[trigger] arrows[i]).force.within(ARROW_LIMIT as int),
    ensures
        max == strongest(arrows@),
        forall|i: int| 0 <= i < arrows.len() ==> speed_of((#[trigger] arrows[i]).force) <= max,
{
    let mut max: u64 = 0;
    let mut i: usize = 0;
    while i < arrows.len()
        invariant
            i <= arrows.len(),
            forall|k: int|
                0 <= k < arrows.len() ==> (#[trigger] arrows[k]).force.within(ARROW_LIMIT as int),
            max == strongest(arrows@.take(i as int)),
            forall|k: int| 0 <= k < i ==> speed_of((#[trigger] arrows[k]).force) <= max,
        decreases arrows.len() - i,
    {
        assert(arrows@.take(i + 1).drop_last() =~= arrows@.take(i as int));
        let force: Point = arrows[i].force;
        assert(arrows[i as int].force.within(ARROW_LIMIT as int));
        let strength: u64 = crate::geom::integer_sqrt(force.length_squared());
        if strength > max {
            max = strength;
        }
        i = i + 1;
    }
    assert(arrows@.take(arrows.len() as int) =~= arrows@);
    max
}

/// The arrows for this frame's forces, in proportion to the strongest: forces of different
/// methods differ by orders of magnitude, so no fixed scale would do.
pub fn draw_force_vectors(arrows: &[Arrow]) -> (drawn: Vec<DrawnArrow>)
    requires
        forall|i: int|
            0 <= i < arrows.len() ==> (#[trigger] arrows[i]).force.within(ARROW_LIMIT as int)
                && arrows[i].at.within(HULL_LIMIT as int),
    ensures
        drawn@ == drawn_arrows(arrows@),
{
    let max: u64 = strongest_of(arrows);
    let mut drawn: Vec<DrawnArrow> = Vec::new();
    if max == 0 {
        return drawn;
    }
    let ghost m = max as int;
    let ghost p = |a: Arrow| a.at.dist2(arrow_tip(a, m)) > 1_000_000;
    let ghost f = |a: Arrow| DrawnArrow { from: a.at, to: arrow_tip(a, m) };
    let mut i: usize = 0;
    proof {
        lemma_pick_none(arrows@, p, f);
    }
    while i < arrows.len()
        invariant
            0 < max,
            m == max,
            i <= arrows.len(),
            forall|k: int|
                0 <= k < arrows.len() ==> (#[trigger] arrows[k]).at.within(HULL_LIMIT as int),
            forall|k: int| 0 <= k < arrows.len() ==> speed_of((#[trigger] arrows[k]).force) <= max,
            p == (|a: Arrow| a.at.dist2(arrow_tip(a, m)) > 1_000_000),
            f == (|a: Arrow| DrawnArrow { from: a.at, to: arrow_tip(a, m) }),
            drawn@ == pick(arrows@.take(i as int), p, f),
        decreases arrows.len() - i,
    {
        let arrow: Arrow = arrows[i];
        proof {
            lemma_pick_step(arrows@, i as int, p, f);
            lemma_axis_within(arrow.force);
            assert(speed_of(arrows[i as int].force) <= max);
        }
        let to: Point = Point {
            x: tip_axis(arrow.at.x, arrow.force.x, max),
            y: tip_axis(arrow.at.y, arrow.force.y, max),
            z: tip_axis(arrow.at.z, arrow.force.z, max),
        };
        if arrow.at.distance_squared(&to) > 1_000_000 {
            drawn.push(DrawnArrow { from: arrow.at, to });
        }
        i = i + 1;
    }
    assert(arrows@.take(arrows.len() as int) =~= arrows@);
    drawn
}

} // verus!
