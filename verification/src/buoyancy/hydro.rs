//! Hydrostatic geometry: a closed triangle mesh of the body, and clipping of that mesh
//! against the water plane.
//!
//! Past [`frustum_triangles`] nothing here knows the body's shape: the buoyancy methods
//! read only a closed list of triangles, wound outwards.
//!
//! Two facts carry the methods. Pressure integrated over the clipped surface gives the
//! whole buoyant force, since the missing cap lies at the surface, where the pressure is
//! nothing. And by the divergence theorem the submerged volume is the sum of
//! `(mean y - level) * n_y * area` over the clipped triangles, where the cap again adds
//! nothing. The laws of the volume stand in `solid`, `volume` and `rising`.

use vstd::prelude::*;
use crate::geom::{floor_div, integer_sqrt, Point, LOCAL_LIMIT};
use crate::geom::{floor_sqrt, lemma_product_bound, part_way, square};

verus! {

/// How far from the tank's centre a corner may lie (2^26 um, about 67 m) whose moments are
/// summed: a moment is a coordinate squared times an area, and the sum of those of a whole
/// hull must fit 128 bits.
pub const HULL_LIMIT: i64 = 0x400_0000;

/// The most triangles that a clipped hull may have.
pub const MAX_TRIANGLES: usize = 0x2000;

/// The longest a body may be in any direction (2^23 um, about 8 m; the sliders stop short of
/// it), so that no corner of a turned one lies past [`HULL_LIMIT`].
pub const SHAPE_LIMIT: i64 = 0x80_0000;

/// How far from the tank's centre the body itself may lie (about 42 m), so that no corner
/// of it lies past [`HULL_LIMIT`].
pub const POSITION_LIMIT: i64 = 0x280_0000;

/// A rim no wider than this (100 um) has no end cap.
pub const RIM_EPSILON: i64 = 100;

/// The least doubled area of a triangle that has a direction, in square micrometres.
pub const LEAST_DOUBLE_AREA: u64 = 1_000;

/// The least square of a doubled area that counts towards a volume.
pub const LEAST_SQUARE: u128 = 1_000_000;

/// Six times the least volume that counts as submerged, in cubic micrometres.
pub const LEAST_SIXFOLD: i128 = 6_000_000_000;

/// A triangle; its corners run counter-clockwise seen from outside.
#[derive(Clone, Copy, Debug, PartialEq, Eq, Structural)]
pub struct Triangle {
    pub a: Point,
    pub b: Point,
    pub c: Point,
}

/// The body: a conical frustum along its own y axis.
#[derive(Clone, Copy, Debug, PartialEq, Eq, Structural)]
pub struct Shape {
    /// Radius of side 1, the upper face.
    pub r_top: i64,
    /// Radius of side 2, the lower face.
    pub r_bottom: i64,
    pub length: i64,
}

/// A direction in the horizontal plane: the cosine and sine of its angle, in millionths.
#[derive(Clone, Copy, Debug, PartialEq, Eq, Structural)]
pub struct Heading {
    pub cos: i64,
    pub sin: i64,
}

/// A rotation, by its matrix in millionths.
#[derive(Clone, Copy, Debug, PartialEq, Eq, Structural)]
pub struct Rotation {
    pub x_axis: Point,
    pub y_axis: Point,
    pub z_axis: Point,
}

impl Shape {
    /// Whether every measure is one that a body can have.
    pub open spec fn valid(self) -> bool {
        &&& 0 <= self.r_top <= SHAPE_LIMIT
        &&& 0 <= self.r_bottom <= SHAPE_LIMIT
        &&& 0 < self.length <= SHAPE_LIMIT
    }
}

impl Heading {
    /// Whether this is a cosine and a sine.
    pub open spec fn valid(self) -> bool {
        -1_000_000 <= self.cos <= 1_000_000 && -1_000_000 <= self.sin <= 1_000_000
    }
}

impl Rotation {
    /// Whether no entry of the matrix exceeds one.
    pub open spec fn valid(self) -> bool {
        self.x_axis.within(1_000_000) && self.y_axis.within(1_000_000) && self.z_axis.within(
            1_000_000,
        )
    }

    /// Where the rotation takes `p`, each coordinate rounded down.
    pub open spec fn of(self, p: Point) -> Point {
        Point {
            x: turned(self.x_axis.x as int, self.y_axis.x as int, self.z_axis.x as int, p) as i64,
            y: turned(self.x_axis.y as int, self.y_axis.y as int, self.z_axis.y as int, p) as i64,
            z: turned(self.x_axis.z as int, self.y_axis.z as int, self.z_axis.z as int, p) as i64,
        }
    }
}

/// One coordinate of a rotated point, of which `(rx, ry, rz)` is the row of the matrix.
pub open spec fn turned(rx: int, ry: int, rz: int, p: Point) -> int {
    (rx * p.x + ry * p.y + rz * p.z) / 1_000_000
}

impl Triangle {
    /// Whether every corner lies within `limit` of the centre along each axis.
    pub open spec fn within(self, limit: int) -> bool {
        self.a.within(limit) && self.b.within(limit) && self.c.within(limit)
    }

    /// The outward normal, as long as twice the triangle's area.
    pub open spec fn area_x(self) -> int {
        (self.b.y - self.a.y) * (self.c.z - self.a.z) - (self.b.z - self.a.z) * (self.c.y - self.a.y)
    }

    pub open spec fn area_y(self) -> int {
        (self.b.z - self.a.z) * (self.c.x - self.a.x) - (self.b.x - self.a.x) * (self.c.z - self.a.z)
    }

    pub open spec fn area_z(self) -> int {
        (self.b.x - self.a.x) * (self.c.y - self.a.y) - (self.b.y - self.a.y) * (self.c.x - self.a.x)
    }

    /// The normal of twice the area, as a vector.
    pub open spec fn area_vector(self) -> Point {
        Point { x: self.area_x() as i64, y: self.area_y() as i64, z: self.area_z() as i64 }
    }

    /// The same triangle moved to the world by a body's pose.
    pub open spec fn placed(self, pos: Point, rot: Rotation) -> Triangle {
        Triangle {
            a: moved(pos, rot.of(self.a)),
            b: moved(pos, rot.of(self.b)),
            c: moved(pos, rot.of(self.c)),
        }
    }

    /// The three directed edges.
    pub open spec fn edge(self, e: int) -> (Point, Point) {
        if e == 0 {
            (self.a, self.b)
        } else if e == 1 {
            (self.b, self.c)
        } else {
            (self.c, self.a)
        }
    }
}

/// `p` shifted by `by`.
pub open spec fn moved(by: Point, p: Point) -> Point {
    Point { x: (by.x + p.x) as i64, y: (by.y + p.y) as i64, z: (by.z + p.z) as i64 }
}

// ---- Poses ---------------------------------------------------------------------------

/// One coordinate of a rotated point.
fn turn_axis(rx: i64, ry: i64, rz: i64, p: &Point) -> (v: i64)
    requires
        -1_000_000 <= rx <= 1_000_000,
        -1_000_000 <= ry <= 1_000_000,
        -1_000_000 <= rz <= 1_000_000,
        p.is_local(),
    ensures
        v == turned(rx as int, ry as int, rz as int, *p),
        -(3 * LOCAL_LIMIT) <= v <= 3 * LOCAL_LIMIT,
        p.within(SHAPE_LIMIT as int) ==> -(3 * SHAPE_LIMIT) <= v <= 3 * SHAPE_LIMIT,
{
    proof {
        lemma_product_bound(rx as int, p.x as int, 1_000_000, LOCAL_LIMIT as int);
        lemma_product_bound(ry as int, p.y as int, 1_000_000, LOCAL_LIMIT as int);
        lemma_product_bound(rz as int, p.z as int, 1_000_000, LOCAL_LIMIT as int);
        if p.within(SHAPE_LIMIT as int) {
            lemma_product_bound(rx as int, p.x as int, 1_000_000, SHAPE_LIMIT as int);
            lemma_product_bound(ry as int, p.y as int, 1_000_000, SHAPE_LIMIT as int);
            lemma_product_bound(rz as int, p.z as int, 1_000_000, SHAPE_LIMIT as int);
        }
    }
    let sum: i128 = rx as i128 * p.x as i128 + ry as i128 * p.y as i128 + rz as i128 * p.z as i128;
    let v: i128 = floor_div(sum, 1_000_000);
    v as i64
}

/// The point `p` of the body, rotated.
pub fn rotate(rot: &Rotation, p: &Point) -> (r: Point)
    requires
        rot.valid(),
        p.is_local(),
    ensures
        r == rot.of(*p),
        r.within(3 * LOCAL_LIMIT),
        p.within(SHAPE_LIMIT as int) ==> r.within(3 * SHAPE_LIMIT),
{
    Point {
        x: turn_axis(rot.x_axis.x, rot.y_axis.x, rot.z_axis.x, p),
        y: turn_axis(rot.x_axis.y, rot.y_axis.y, rot.z_axis.y, p),
        z: turn_axis(rot.x_axis.z, rot.y_axis.z, rot.z_axis.z, p),
    }
}

/// The height in the world of the body's point `p`: one coordinate of a full transform,
/// enough to tell a dry point.
pub fn world_y(pos: &Point, rot: &Rotation, p: &Point) -> (y: i64)
    requires
        rot.valid(),
        p.within(SHAPE_LIMIT as int),
        pos.within(POSITION_LIMIT as int),
    ensures
        y == moved(*pos, rot.of(*p)).y,
        -HULL_LIMIT <= y <= HULL_LIMIT,
{
    pos.y + turn_axis(rot.x_axis.y, rot.y_axis.y, rot.z_axis.y, p)
}

/// The body's point `p` in the world.
pub fn to_world(pos: &Point, rot: &Rotation, p: &Point) -> (w: Point)
    requires
        rot.valid(),
        p.within(SHAPE_LIMIT as int),
        pos.within(POSITION_LIMIT as int),
    ensures
        w == moved(*pos, rot.of(*p)),
        w.within(HULL_LIMIT as int),
{
    let r: Point = rotate(rot, p);
    Point { x: pos.x + r.x, y: pos.y + r.y, z: pos.z + r.z }
}

/// A triangle of the body placed in the world by the body's pose.
pub fn tri_to_world(tri: &Triangle, pos: &Point, rot: &Rotation) -> (w: Triangle)
    requires
        rot.valid(),
        tri.within(SHAPE_LIMIT as int),
        pos.within(POSITION_LIMIT as int),
    ensures
        w == tri.placed(*pos, *rot),
        w.within(HULL_LIMIT as int),
{
    Triangle {
        a: to_world(pos, rot, &tri.a),
        b: to_world(pos, rot, &tri.b),
        c: to_world(pos, rot, &tri.c),
    }
}

// ---- The hull ------------------------------------------------------------------------

/// The height of ring `j` out of `rings` bands along the wall.
pub open spec fn ring_height(shape: Shape, j: int, rings: int) -> int {
    (shape.length * (2 * j - rings)) / (2 * rings)
}

/// The radius of ring `j`.
pub open spec fn ring_radius(shape: Shape, j: int, rings: int) -> int {
    part_way(shape.r_bottom as int, shape.r_top as int, j, rings)
}

/// The point at heading `h` of a ring of radius `r` at height `y`.
pub open spec fn ring_spot(h: Heading, y: int, r: int) -> Point {
    Point {
        x: ((h.cos * r) / 1_000_000) as i64,
        y: y as i64,
        z: ((h.sin * r) / 1_000_000) as i64,
    }
}

/// Point `i` of ring `j`; the headings go once around.
pub open spec fn rim(shape: Shape, headings: Seq<Heading>, i: int, j: int, rings: int) -> Point {
    ring_spot(
        headings[i % headings.len() as int],
        ring_height(shape, j, rings),
        ring_radius(shape, j, rings),
    )
}

/// Triangle `s` of the two that make quad `i` of band `j`.
pub open spec fn wall_piece(
    shape: Shape,
    headings: Seq<Heading>,
    rings: int,
    j: int,
    i: int,
    s: int,
) -> Triangle {
    if s == 0 {
        Triangle {
            a: rim(shape, headings, i, j, rings),
            b: rim(shape, headings, i, j + 1, rings),
            c: rim(shape, headings, i + 1, j, rings),
        }
    } else {
        Triangle {
            a: rim(shape, headings, i + 1, j, rings),
            b: rim(shape, headings, i, j + 1, rings),
            c: rim(shape, headings, i + 1, j + 1, rings),
        }
    }
}

/// Triangle `k` of the wall: band after band, quad after quad.
pub open spec fn wall_triangle(
    shape: Shape,
    headings: Seq<Heading>,
    rings: int,
    k: int,
) -> Triangle {
    let n = headings.len() as int;
    wall_piece(shape, headings, rings, k / (2 * n), (k % (2 * n)) / 2, k % 2)
}

/// The wall of the frustum.
pub open spec fn wall(shape: Shape, headings: Seq<Heading>, rings: int) -> Seq<Triangle> {
    Seq::new(
        (2 * headings.len() * rings) as nat,
        |k: int| wall_triangle(shape, headings, rings, k),
    )
}

/// Triangle `i` of the upper end cap.
pub open spec fn top_piece(
    shape: Shape,
    headings: Seq<Heading>,
    rings: int,
    i: int,
) -> Triangle {
    Triangle {
        a: Point { x: 0, y: ring_height(shape, rings, rings) as i64, z: 0 },
        b: rim(shape, headings, i + 1, rings, rings),
        c: rim(shape, headings, i, rings, rings),
    }
}

/// Triangle `i` of the lower end cap.
pub open spec fn bottom_piece(
    shape: Shape,
    headings: Seq<Heading>,
    rings: int,
    i: int,
) -> Triangle {
    Triangle {
        a: Point { x: 0, y: ring_height(shape, 0, rings) as i64, z: 0 },
        b: rim(shape, headings, i, 0, rings),
        c: rim(shape, headings, i + 1, 0, rings),
    }
}

/// The end caps over the first `count` headings; a rim without width has none.
pub open spec fn caps(
    shape: Shape,
    headings: Seq<Heading>,
    rings: int,
    count: int,
) -> Seq<Triangle>
    decreases count,
{
    if count <= 0 {
        Seq::empty()
    } else {
        let i = count - 1;
        let before = caps(shape, headings, rings, i);
        let topped = if shape.r_top > RIM_EPSILON {
            before.push(top_piece(shape, headings, rings, i))
        } else {
            before
        };
        if shape.r_bottom > RIM_EPSILON {
            topped.push(bottom_piece(shape, headings, rings, i))
        } else {
            topped
        }
    }
}

/// The closed hull of the frustum.
pub open spec fn hull(shape: Shape, headings: Seq<Heading>, rings: int) -> Seq<Triangle> {
    wall(shape, headings, rings) + caps(shape, headings, rings, headings.len() as int)
}

/// Whether `headings` can go around a body.
pub open spec fn headings_valid(headings: Seq<Heading>) -> bool {
    &&& 3 <= headings.len() <= 0x1000
    &&& forall|i: int| 0 <= i < headings.len() ==> (#[trigger] headings[i]).valid()
}

/// The height of a ring lies within the body.
pub(crate) proof fn lemma_ring_height(shape: Shape, j: int, rings: int)
    requires
        shape.valid(),
        0 <= j <= rings,
        0 < rings,
    ensures
        -SHAPE_LIMIT <= ring_height(shape, j, rings) <= SHAPE_LIMIT,
{
    let l = shape.length as int;
    let t = 2 * j - rings;
    assert(-(l * rings) <= l * t <= l * rings) by (nonlinear_arith)
        requires
            -rings <= t <= rings,
            0 <= l,
    ;
    assert(-l <= (l * t) / (2 * rings) <= l) by (nonlinear_arith)
        requires
            -(l * rings) <= l * t <= l * rings,
            0 < rings,
            0 <= l,
    ;
}

pub(crate) proof fn lemma_ring_radius(shape: Shape, j: int, rings: int)
    requires
        shape.valid(),
        0 <= j <= rings,
        0 < rings,
    ensures
        0 <= ring_radius(shape, j, rings) <= SHAPE_LIMIT,
{
    let (a, b) = (shape.r_bottom as int, shape.r_top as int);
    let gap = if a <= b { b - a } else { a - b };
    assert(0 <= (gap * j) / rings <= gap) by (nonlinear_arith)
        requires
            0 <= gap,
            0 <= j <= rings,
            0 < rings,
    ;
}

/// A point on a ring of radius `r` at height `y`, at the heading `h`. The one place where
/// the ring's convention stands: the shown mesh, the collider and the hull all sample
/// their rims through it.
pub fn ring_point(h: &Heading, y: i64, r: i64) -> (p: Point)
    requires
        h.valid(),
        -SHAPE_LIMIT <= y <= SHAPE_LIMIT,
        0 <= r <= SHAPE_LIMIT,
    ensures
        p == ring_spot(*h, y as int, r as int),
        p.within(SHAPE_LIMIT as int),
{
    proof {
        lemma_product_bound(h.cos as int, r as int, 1_000_000, SHAPE_LIMIT as int);
        lemma_product_bound(h.sin as int, r as int, 1_000_000, SHAPE_LIMIT as int);
    }
    assert(-1_000_000 * r <= h.cos * r && -1_000_000 * r <= h.sin * r) by (nonlinear_arith)
        requires
            h.cos >= -1_000_000,
            h.sin >= -1_000_000,
            r >= 0,
    ;
    let x: i128 = floor_div(h.cos as i128 * r as i128, 1_000_000);
    let z: i128 = floor_div(h.sin as i128 * r as i128, 1_000_000);
    Point { x: x as i64, y, z: z as i64 }
}

/// The height of ring `j` out of `rings`.
fn height_of_ring(shape: &Shape, j: usize, rings: usize) -> (y: i64)
    requires
        shape.valid(),
        j <= rings <= 0x1000,
        0 < rings,
    ensures
        y == ring_height(*shape, j as int, rings as int),
        -SHAPE_LIMIT <= y <= SHAPE_LIMIT,
{
    proof {
        lemma_ring_height(*shape, j as int, rings as int);
        lemma_product_bound(shape.length as int, 2 * j - rings, SHAPE_LIMIT as int, 0x1000);
    }
    let t: i128 = 2 * j as i128 - rings as i128;
    let y: i128 = floor_div(shape.length as i128 * t, 2 * rings as i128);
    y as i64
}

/// The radius of ring `j` out of `rings`.
fn radius_of_ring(shape: &Shape, j: usize, rings: usize) -> (r: i64)
    requires
        shape.valid(),
        j <= rings <= 0x1000,
        0 < rings,
    ensures
        r == ring_radius(*shape, j as int, rings as int),
        0 <= r <= SHAPE_LIMIT,
{
    proof {
        lemma_ring_radius(*shape, j as int, rings as int);
    }
    if shape.r_bottom <= shape.r_top {
        let gap: i128 = (shape.r_top - shape.r_bottom) as i128;
        proof {
            lemma_product_bound(gap as int, j as int, SHAPE_LIMIT as int, 0x1000);
        }
        let step: i128 = floor_div(gap * j as i128, rings as i128);
        (shape.r_bottom as i128 + step) as i64
    } else {
        let gap: i128 = (shape.r_bottom - shape.r_top) as i128;
        proof {
            lemma_product_bound(gap as int, j as int, SHAPE_LIMIT as int, 0x1000);
        }
        let step: i128 = floor_div(gap * j as i128, rings as i128);
        (shape.r_bottom as i128 - step) as i64
    }
}

/// Point `i` of ring `j`.
fn rim_point(shape: &Shape, headings: &[Heading], i: usize, j: usize, rings: usize) -> (p: Point)
    requires
        shape.valid(),
        headings_valid(headings@),
        j <= rings <= 0x1000,
        0 < rings,
    ensures
        p == rim(*shape, headings@, i as int, j as int, rings as int),
        p.within(SHAPE_LIMIT as int),
{
    let k: usize = i % headings.len();
    let h: Heading = headings[k];
    assert(headings@[k as int].valid());
    ring_point(&h, height_of_ring(shape, j, rings), radius_of_ring(shape, j, rings))
}

/// Triangle `k` of the wall.
fn wall_triangle_at(shape: &Shape, headings: &[Heading], rings: usize, k: usize) -> (t: Triangle)
    requires
        shape.valid(),
        headings_valid(headings@),
        0 < rings <= 0x1000,
        k < 2 * headings.len() * rings,
    ensures
        t == wall_triangle(*shape, headings@, rings as int, k as int),
        t.within(SHAPE_LIMIT as int),
{
    let n: usize = headings.len();
    let j: usize = k / (2 * n);
    let i: usize = (k % (2 * n)) / 2;
    assert(j < rings) by (nonlinear_arith)
        requires
            j == k as int / (2 * n),
            0 < n,
            k < 2 * n * rings,
    ;
    if k % 2 == 0 {
        Triangle {
            a: rim_point(shape, headings, i, j, rings),
            b: rim_point(shape, headings, i, j + 1, rings),
            c: rim_point(shape, headings, i + 1, j, rings),
        }
    } else {
        Triangle {
            a: rim_point(shape, headings, i + 1, j, rings),
            b: rim_point(shape, headings, i, j + 1, rings),
            c: rim_point(shape, headings, i + 1, j + 1, rings),
        }
    }
}

/// The closed hull of a conical frustum, wound outwards: the wall in `rings` bands (at
/// least one; more bands clip a tilted body's waterline more finely) with a quad for each
/// of the headings around the axis, then the two end caps.
pub fn frustum_triangles(shape: &Shape, headings: &[Heading], rings: usize) -> (tris: Vec<Triangle>)
    requires
        shape.valid(),
        headings_valid(headings@),
        rings <= 0x1000,
    ensures
        tris@ == hull(*shape, headings@, if rings == 0 { 1 } else { rings as int }),
        forall|k: int| 0 <= k < tris@.len() ==> (#[trigger] tris@[k]).within(SHAPE_LIMIT as int),
{
    let rings: usize = if rings == 0 { 1 } else { rings };
    let n: usize = headings.len();
    assert(2 * n * rings <= 0x200_0000) by (nonlinear_arith)
        requires
            0 <= n <= 0x1000,
            0 <= rings <= 0x1000,
    ;
    let total: usize = 2 * n * rings;
    let mut tris: Vec<Triangle> = Vec::new();
    let mut k: usize = 0;
    while k < total
        invariant
            shape.valid(),
            headings_valid(headings@),
            0 < rings <= 0x1000,
            n == headings.len(),
            total == 2 * n * rings,
            k <= total,
            tris@.len() == k,
            forall|m: int|
                0 <= m < k ==> #[trigger] tris@[m] == wall_triangle(
                    *shape,
                    headings@,
                    rings as int,
                    m,
                ),
            forall|m: int| 0 <= m < k ==> (#[trigger] tris@[m]).within(SHAPE_LIMIT as int),
        decreases total - k,
    {
        tris.push(wall_triangle_at(shape, headings, rings, k));
        k = k + 1;
    }
    assert(tris@ =~= wall(*shape, headings@, rings as int));
    let top_y: i64 = height_of_ring(shape, rings, rings);
    let bottom_y: i64 = height_of_ring(shape, 0, rings);
    let mut i: usize = 0;
    assert(tris@ =~= wall(*shape, headings@, rings as int) + caps(
        *shape,
        headings@,
        rings as int,
        0,
    ));
    while i < n
        invariant
            shape.valid(),
            headings_valid(headings@),
            0 < rings <= 0x1000,
            n == headings.len(),
            i <= n,
            top_y == ring_height(*shape, rings as int, rings as int),
            bottom_y == ring_height(*shape, 0, rings as int),
            -SHAPE_LIMIT <= top_y <= SHAPE_LIMIT,
            -SHAPE_LIMIT <= bottom_y <= SHAPE_LIMIT,
            tris@ == wall(*shape, headings@, rings as int) + caps(
                *shape,
                headings@,
                rings as int,
                i as int,
            ),
            forall|m: int| 0 <= m < tris@.len() ==> (#[trigger] tris@[m]).within(SHAPE_LIMIT as int),
        decreases n - i,
    {
        if shape.r_top > RIM_EPSILON {
            tris.push(
                Triangle {
                    a: Point { x: 0, y: top_y, z: 0 },
                    b: rim_point(shape, headings, i + 1, rings, rings),
                    c: rim_point(shape, headings, i, rings, rings),
                },
            );
        }
        if shape.r_bottom > RIM_EPSILON {
            tris.push(
                Triangle {
                    a: Point { x: 0, y: bottom_y, z: 0 },
                    b: rim_point(shape, headings, i, 0, rings),
                    c: rim_point(shape, headings, i + 1, 0, rings),
                },
            );
        }
        assert(tris@ =~= wall(*shape, headings@, rings as int) + caps(
            *shape,
            headings@,
            rings as int,
            i + 1,
        ));
        i = i + 1;
    }
    tris
}

/// The hull has two triangles for each heading and band, and at most two for each heading
/// at the ends.
pub proof fn lemma_hull_size(shape: Shape, headings: Seq<Heading>, rings: int)
    requires
        0 <= rings,
    ensures
        hull(shape, headings, rings).len() <= 2 * headings.len() * rings + 2 * headings.len(),
{
    lemma_caps_size(shape, headings, rings, headings.len() as int);
    assert(0 <= 2 * headings.len() * rings) by (nonlinear_arith)
        requires
            0 <= rings,
    ;
}

proof fn lemma_caps_size(shape: Shape, headings: Seq<Heading>, rings: int, count: int)
    requires
        0 <= count,
    ensures
        caps(shape, headings, rings, count).len() <= 2 * count,
    decreases count,
{
    if count > 0 {
        lemma_caps_size(shape, headings, rings, count - 1);
    }
}

// ---- The hull is closed --------------------------------------------------------------

/// Whether some triangle of `tris` has the edge from `p` to `q`.
pub open spec fn has_edge(tris: Seq<Triangle>, p: Point, q: Point) -> bool {
    exists|k: int, e: int|
        0 <= k < tris.len() && 0 <= e < 3 && #[trigger] tris[k].edge(e) == (p, q)
}

/// Whether every edge of `tris` is also run through the other way, so that the triangles
/// leave no hole.
pub open spec fn is_closed(tris: Seq<Triangle>) -> bool {
    forall|k: int, e: int|
        0 <= k < tris.len() && 0 <= e < 3 ==> {
            let edge = #[trigger] tris[k].edge(e);
            has_edge(tris, edge.1, edge.0)
        }
}

/// Where the piece `(j, i, s)` stands in the wall.
pub(crate) proof fn lemma_wall_index(shape: Shape, headings: Seq<Heading>, rings: int, j: int, i: int, s: int)
    requires
        headings_valid(headings),
        0 <= j < rings,
        0 <= i < headings.len(),
        0 <= s < 2,
    ensures
        ({
            let k = 2 * headings.len() * j + 2 * i + s;
            &&& 0 <= k < wall(shape, headings, rings).len()
            &&& wall(shape, headings, rings)[k] == wall_piece(shape, headings, rings, j, i, s)
        }),
{
    let n = headings.len() as int;
    let k = 2 * n * j + 2 * i + s;
    assert(0 <= k < 2 * n * rings) by (nonlinear_arith)
        requires
            k == 2 * n * j + 2 * i + s,
            0 <= j < rings,
            0 <= i < n,
            0 <= s < 2,
    ;
    assert(k == j * (2 * n) + (2 * i + s)) by (nonlinear_arith)
        requires
            k == 2 * n * j + 2 * i + s,
    ;
    vstd::arithmetic::div_mod::lemma_fundamental_div_mod_converse(k, 2 * n, j, 2 * i + s);
    assert(k == 2 * (n * j + i) + s) by (nonlinear_arith)
        requires
            k == 2 * n * j + 2 * i + s,
    ;
}

/// Triangle `k` of the wall is one of its pieces.
pub(crate) proof fn lemma_wall_piece(shape: Shape, headings: Seq<Heading>, rings: int, k: int) -> (p: (
    int,
    int,
    int,
))
    requires
        headings_valid(headings),
        0 < rings,
        0 <= k < wall(shape, headings, rings).len(),
    ensures
        0 <= p.0 < rings,
        0 <= p.1 < headings.len(),
        0 <= p.2 < 2,
        wall(shape, headings, rings)[k] == wall_piece(shape, headings, rings, p.0, p.1, p.2),
{
    let n = headings.len() as int;
    let (j, r) = (k / (2 * n), k % (2 * n));
    vstd::arithmetic::div_mod::lemma_fundamental_div_mod(k, 2 * n);
    assert(0 <= j < rings) by (nonlinear_arith)
        requires
            k == (2 * n) * j + r,
            0 <= r < 2 * n,
            0 <= k < 2 * n * rings,
            0 < n,
    ;
    (j, r / 2, k % 2)
}

/// Where the caps stand when both rims have width.
pub(crate) proof fn lemma_caps_index(shape: Shape, headings: Seq<Heading>, rings: int, count: int)
    requires
        shape.r_top > RIM_EPSILON,
        shape.r_bottom > RIM_EPSILON,
        0 <= count,
    ensures
        caps(shape, headings, rings, count).len() == 2 * count,
        forall|i: int|
            0 <= i < count ==> caps(shape, headings, rings, count)[2 * i] == #[trigger] top_piece(
                shape,
                headings,
                rings,
                i,
            ),
        forall|i: int|
            0 <= i < count ==> caps(shape, headings, rings, count)[2 * i + 1]
                == #[trigger] bottom_piece(shape, headings, rings, i),
    decreases count,
{
    if count > 0 {
        lemma_caps_index(shape, headings, rings, count - 1);
        let all = caps(shape, headings, rings, count);
        let before = caps(shape, headings, rings, count - 1);
        assert forall|i: int| 0 <= i < count implies all[2 * i] == #[trigger] top_piece(
            shape,
            headings,
            rings,
            i,
        ) by {
            if i < count - 1 {
                assert(all[2 * i] == before[2 * i]);
            }
        }
        assert forall|i: int| 0 <= i < count implies all[2 * i + 1] == #[trigger] bottom_piece(
            shape,
            headings,
            rings,
            i,
        ) by {
            if i < count - 1 {
                assert(all[2 * i + 1] == before[2 * i + 1]);
            }
        }
    }
}

/// The hull has the edge `e` of its wall's piece `(j, i, s)`.
proof fn lemma_hull_has_wall_edge(
    shape: Shape,
    headings: Seq<Heading>,
    rings: int,
    j: int,
    i: int,
    s: int,
    e: int,
)
    requires
        headings_valid(headings),
        0 <= j < rings,
        0 <= i < headings.len(),
        0 <= s < 2,
        0 <= e < 3,
    ensures
        ({
            let edge = wall_piece(shape, headings, rings, j, i, s).edge(e);
            has_edge(hull(shape, headings, rings), edge.0, edge.1)
        }),
{
    let k = 2 * headings.len() * j + 2 * i + s;
    lemma_wall_index(shape, headings, rings, j, i, s);
    let h = hull(shape, headings, rings);
    assert(h[k] == wall(shape, headings, rings)[k]);
    let edge = wall_piece(shape, headings, rings, j, i, s).edge(e);
    assert(h[k].edge(e) == (edge.0, edge.1));
}

/// The hull has the edge `e` of the upper cap's piece `i`, and of the lower one's.
proof fn lemma_hull_has_cap_edge(
    shape: Shape,
    headings: Seq<Heading>,
    rings: int,
    i: int,
    e: int,
)
    requires
        shape.r_top > RIM_EPSILON,
        shape.r_bottom > RIM_EPSILON,
        0 <= i < headings.len(),
        0 <= e < 3,
    ensures
        ({
            let top = top_piece(shape, headings, rings, i).edge(e);
            let bottom = bottom_piece(shape, headings, rings, i).edge(e);
            &&& has_edge(hull(shape, headings, rings), top.0, top.1)
            &&& has_edge(hull(shape, headings, rings), bottom.0, bottom.1)
        }),
{
    let n = headings.len() as int;
    lemma_caps_index(shape, headings, rings, n);
    let c = caps(shape, headings, rings, n);
    let w = wall(shape, headings, rings).len() as int;
    let h = hull(shape, headings, rings);
    let top = top_piece(shape, headings, rings, i).edge(e);
    let bottom = bottom_piece(shape, headings, rings, i).edge(e);
    assert(h[w + 2 * i] == c[2 * i]);
    assert(h[w + (2 * i + 1)] == c[2 * i + 1]);
    assert(h[w + 2 * i].edge(e) == (top.0, top.1));
    assert(h[w + (2 * i + 1)].edge(e) == (bottom.0, bottom.1));
}

/// The heading before `i`.
pub open spec fn heading_before(i: int, n: int) -> int {
    if i == 0 {
        n - 1
    } else {
        i - 1
    }
}

/// Going once around comes back to the first heading.
proof fn lemma_around(shape: Shape, headings: Seq<Heading>, i: int, j: int, rings: int)
    requires
        headings_valid(headings),
        0 <= i < headings.len(),
    ensures
        rim(shape, headings, heading_before(i, headings.len() as int) + 1, j, rings) == rim(
            shape,
            headings,
            i,
            j,
            rings,
        ),
{
    let n = headings.len() as int;
    if i == 0 {
        vstd::arithmetic::div_mod::lemma_mod_self_0(n);
        vstd::arithmetic::div_mod::lemma_small_mod(0, n as nat);
    }
}

/// The hull of a body whose two ends both have width leaves no hole: every edge of a
/// triangle is run through the other way by another.
pub proof fn law_hull_is_closed(shape: Shape, headings: Seq<Heading>, rings: int)
    requires
        shape.r_top > RIM_EPSILON,
        shape.r_bottom > RIM_EPSILON,
        headings_valid(headings),
        0 < rings,
    ensures
        is_closed(hull(shape, headings, rings)),
{
    let h = hull(shape, headings, rings);
    let n = headings.len() as int;
    let w = wall(shape, headings, rings);
    lemma_caps_index(shape, headings, rings, n);
    assert forall|k: int, e: int| 0 <= k < h.len() && 0 <= e < 3 implies {
        let edge = #[trigger] h[k].edge(e);
        has_edge(h, edge.1, edge.0)
    } by {
        if k < w.len() {
            let (j, i, s) = lemma_wall_piece(shape, headings, rings, k);
            assert(h[k] == w[k]);
            let before = heading_before(i, n);
            if s == 0 && e == 0 {
                lemma_around(shape, headings, i, j, rings);
                lemma_around(shape, headings, i, j + 1, rings);
                lemma_hull_has_wall_edge(shape, headings, rings, j, before, 1, 2);
            } else if s == 0 && e == 1 {
                lemma_hull_has_wall_edge(shape, headings, rings, j, i, 1, 0);
            } else if s == 0 {
                if j > 0 {
                    lemma_hull_has_wall_edge(shape, headings, rings, j - 1, i, 1, 1);
                } else {
                    lemma_hull_has_cap_edge(shape, headings, rings, i, 1);
                }
            } else if e == 0 {
                lemma_hull_has_wall_edge(shape, headings, rings, j, i, 0, 1);
            } else if e == 1 {
                if j + 1 < rings {
                    lemma_hull_has_wall_edge(shape, headings, rings, j + 1, i, 0, 2);
                } else {
                    lemma_hull_has_cap_edge(shape, headings, rings, i, 1);
                }
            } else {
                let next = if i + 1 == n { 0 } else { i + 1 };
                assert(heading_before(next, n) == i);
                lemma_around(shape, headings, next, j, rings);
                lemma_around(shape, headings, next, j + 1, rings);
                lemma_hull_has_wall_edge(shape, headings, rings, j, next, 0, 0);
            }
        } else {
            let m = k - w.len();
            let i = m / 2;
            let c = caps(shape, headings, rings, n);
            assert(h[k] == c[m]);
            let before = heading_before(i, n);
            let next = if i + 1 == n { 0 } else { i + 1 };
            assert(heading_before(next, n) == i);
            if m % 2 == 0 {
                assert(c[2 * i] == top_piece(shape, headings, rings, i));
                if e == 0 {
                    lemma_around(shape, headings, next, rings, rings);
                    lemma_hull_has_cap_edge(shape, headings, rings, next, 2);
                } else if e == 1 {
                    lemma_hull_has_wall_edge(shape, headings, rings, rings - 1, i, 1, 1);
                } else {
                    lemma_around(shape, headings, i, rings, rings);
                    lemma_hull_has_cap_edge(shape, headings, rings, before, 0);
                }
            } else {
                assert(c[2 * i + 1] == bottom_piece(shape, headings, rings, i));
                if e == 0 {
                    lemma_around(shape, headings, i, 0, rings);
                    lemma_hull_has_cap_edge(shape, headings, rings, before, 2);
                } else if e == 1 {
                    lemma_hull_has_wall_edge(shape, headings, rings, 0, i, 0, 2);
                } else {
                    lemma_around(shape, headings, next, 0, rings);
                    lemma_hull_has_cap_edge(shape, headings, rings, next, 0);
                }
            }
        }
    }
}

// ---- Clipping ------------------------------------------------------------------------

/// Whether `p` is not above the water.
pub open spec fn below(p: Point, level: i64) -> bool {
    p.y <= level
}

pub open spec fn magnitude(v: int) -> int {
    if v >= 0 {
        v
    } else {
        -v
    }
}

/// Where the edge from `p` to `q` meets the water.
pub open spec fn crossing(p: Point, q: Point, level: i64) -> Point {
    p.toward(q, magnitude(p.y - level), magnitude(p.y - q.y))
}

/// What of the edge from `p` to `q` borders the submerged part: the start if it is
/// submerged, and the crossing if there is one.
pub open spec fn edge_kept(p: Point, q: Point, level: i64) -> Seq<Point> {
    let start = if below(p, level) {
        seq![p]
    } else {
        Seq::empty()
    };
    if below(p, level) != below(q, level) {
        start.push(crossing(p, q, level))
    } else {
        start
    }
}

/// The border of the submerged part of `tri`.
pub open spec fn submerged_border(tri: Triangle, level: i64) -> Seq<Point> {
    edge_kept(tri.a, tri.b, level) + edge_kept(tri.b, tri.c, level) + edge_kept(
        tri.c,
        tri.a,
        level,
    )
}

/// The submerged part of `tri`, as triangles with the winding of `tri`.
pub open spec fn submerged(tri: Triangle, level: i64) -> Seq<Triangle> {
    let p = submerged_border(tri, level);
    if p.len() < 3 {
        Seq::empty()
    } else if p.len() == 3 {
        seq![Triangle { a: p[0], b: p[1], c: p[2] }]
    } else {
        seq![Triangle { a: p[0], b: p[1], c: p[2] }, Triangle { a: p[0], b: p[2], c: p[3] }]
    }
}

fn gap(a: i64, b: i64) -> (d: u64)
    requires
        -LOCAL_LIMIT <= a <= LOCAL_LIMIT,
        -LOCAL_LIMIT <= b <= LOCAL_LIMIT,
    ensures
        d == magnitude(a - b),
{
    if a >= b {
        (a - b) as u64
    } else {
        (b - a) as u64
    }
}

/// A crossing lies on the surface, no farther out than the ends of its edge.
pub(crate) proof fn lemma_crossing(p: Point, q: Point, level: i64)
    requires
        below(p, level) != below(q, level),
        p.is_local(),
        q.is_local(),
    ensures
        crossing(p, q, level).y == level,
        crossing(p, q, level).is_local(),
        p.within(HULL_LIMIT as int) && q.within(HULL_LIMIT as int) ==> crossing(p, q, level).within(
            HULL_LIMIT as int,
        ),
{
    let (num, den) = (magnitude(p.y - level), magnitude(p.y - q.y));
    assert(0 <= num <= den && 0 < den);
    lemma_part_way_between(p.x as int, q.x as int, num, den);
    lemma_part_way_between(p.z as int, q.z as int, num, den);
    assert((den * num) / den == num) by (nonlinear_arith)
        requires
            0 < den,
    ;
}

/// What lies part of the way between two numbers lies between them.
pub(crate) proof fn lemma_part_way_between(from: int, to: int, num: int, den: int)
    requires
        0 <= num <= den,
        0 < den,
    ensures
        from <= to ==> from <= part_way(from, to, num, den) <= to,
        to <= from ==> to <= part_way(from, to, num, den) <= from,
{
    let d = if from <= to { to - from } else { from - to };
    assert(0 <= (d * num) / den <= d) by (nonlinear_arith)
        requires
            0 <= d,
            0 <= num <= den,
            0 < den,
    ;
}

/// Adds to `border` what the edge from `p` to `q` has of it.
fn walk_edge(p: &Point, q: &Point, level: i64, border: &mut Vec<Point>)
    requires
        p.is_local(),
        q.is_local(),
        -LOCAL_LIMIT <= level <= LOCAL_LIMIT,
    ensures
        final(border)@ == old(border)@ + edge_kept(*p, *q, level),
{
    let start_below: bool = p.y <= level;
    if start_below {
        border.push(*p);
    }
    if start_below != (q.y <= level) {
        proof {
            lemma_crossing(*p, *q, level);
        }
        border.push(p.lerp(q, gap(p.y, level), gap(p.y, q.y)));
    }
    assert(border@ =~= old(border)@ + edge_kept(*p, *q, level));
}

/// A clipped triangle has no more than four corners, none farther out than those of the
/// triangle.
pub(crate) proof fn lemma_border(tri: Triangle, level: i64)
    requires
        tri.within(LOCAL_LIMIT as int),
    ensures
        submerged_border(tri, level).len() <= 4,
        tri.within(HULL_LIMIT as int) ==> forall|i: int|
            0 <= i < submerged_border(tri, level).len() ==> (#[trigger] submerged_border(
                tri,
                level,
            )[i]).within(HULL_LIMIT as int),
{
    if below(tri.a, level) != below(tri.b, level) {
        lemma_crossing(tri.a, tri.b, level);
    }
    if below(tri.b, level) != below(tri.c, level) {
        lemma_crossing(tri.b, tri.c, level);
    }
    if below(tri.c, level) != below(tri.a, level) {
        lemma_crossing(tri.c, tri.a, level);
    }
}

/// Clips a triangle of the world against the water plane, keeping what is not above
/// `level`. Appends no, one or two triangles to `out`, wound as `tri` is.
pub fn clip_triangle_below(tri: &Triangle, level: i64, out: &mut Vec<Triangle>)
    requires
        tri.within(LOCAL_LIMIT as int),
        -LOCAL_LIMIT <= level <= LOCAL_LIMIT,
    ensures
        final(out)@ == old(out)@ + submerged(*tri, level),
        submerged(*tri, level).len() <= 2,
        tri.within(HULL_LIMIT as int) ==> forall|i: int|
            0 <= i < submerged(*tri, level).len() ==> (#[trigger] submerged(
                *tri,
                level,
            )[i]).within(HULL_LIMIT as int),
{
    proof {
        lemma_border(*tri, level);
    }
    let mut border: Vec<Point> = Vec::new();
    walk_edge(&tri.a, &tri.b, level, &mut border);
    walk_edge(&tri.b, &tri.c, level, &mut border);
    walk_edge(&tri.c, &tri.a, level, &mut border);
    assert(border@ =~= submerged_border(*tri, level));
    if border.len() >= 3 {
        out.push(Triangle { a: border[0], b: border[1], c: border[2] });
    }
    if border.len() == 4 {
        out.push(Triangle { a: border[0], b: border[2], c: border[3] });
    }
    assert(out@ =~= old(out)@ + submerged(*tri, level));
}

/// Nothing of the submerged part stands above the water, and each of its corners is a
/// corner of the triangle or lies on the surface.
pub proof fn law_clipping_keeps_what_is_below(tri: Triangle, level: i64)
    requires
        tri.within(LOCAL_LIMIT as int),
    ensures
        forall|i: int, e: int|
            0 <= i < submerged(tri, level).len() && 0 <= e < 3 ==> {
                let p = (#[trigger] submerged(tri, level)[i].edge(e)).0;
                p.y <= level && (p.y == level || p == tri.a || p == tri.b || p == tri.c)
            },
{
    if below(tri.a, level) != below(tri.b, level) {
        lemma_crossing(tri.a, tri.b, level);
    }
    if below(tri.b, level) != below(tri.c, level) {
        lemma_crossing(tri.b, tri.c, level);
    }
    if below(tri.c, level) != below(tri.a, level) {
        lemma_crossing(tri.c, tri.a, level);
    }
}

/// A triangle wholly under water is kept as it is, and one wholly above it leaves nothing.
pub proof fn law_clipping_is_all_or_nothing_off_the_waterline(tri: Triangle, level: i64)
    ensures
        below(tri.a, level) && below(tri.b, level) && below(tri.c, level) ==> submerged(tri, level)
            == seq![tri],
        !below(tri.a, level) && !below(tri.b, level) && !below(tri.c, level) ==> submerged(
            tri,
            level,
        ) == Seq::<Triangle>::empty(),
{
    let p = submerged_border(tri, level);
    if below(tri.a, level) && below(tri.b, level) && below(tri.c, level) {
        assert(p =~= seq![tri.a, tri.b, tri.c]);
        assert(submerged(tri, level) =~= seq![tri]);
    }
}

// ---- Areas, volumes and centres ------------------------------------------------------

/// `a * b - c * d`, of differences between corners.
fn minor(a: i64, b: i64, c: i64, d: i64) -> (r: i64)
    requires
        -2 * HULL_LIMIT <= a <= 2 * HULL_LIMIT,
        -2 * HULL_LIMIT <= b <= 2 * HULL_LIMIT,
        -2 * HULL_LIMIT <= c <= 2 * HULL_LIMIT,
        -2 * HULL_LIMIT <= d <= 2 * HULL_LIMIT,
    ensures
        r == a * b - c * d,
        -0x80_0000_0000_0000 <= r <= 0x80_0000_0000_0000,
{
    proof {
        lemma_product_bound(a as int, b as int, 0x800_0000, 0x800_0000);
        lemma_product_bound(c as int, d as int, 0x800_0000, 0x800_0000);
    }
    a * b - c * d
}

/// The outward normal of `tri`, as long as twice its area.
pub fn area_vector(tri: &Triangle) -> (v: Point)
    requires
        tri.within(HULL_LIMIT as int),
    ensures
        v == tri.area_vector(),
        v.x == tri.area_x(),
        v.y == tri.area_y(),
        v.z == tri.area_z(),
        v.within(0x80_0000_0000_0000),
{
    let (bx, by, bz): (i64, i64, i64) = (
        tri.b.x - tri.a.x,
        tri.b.y - tri.a.y,
        tri.b.z - tri.a.z,
    );
    let (cx, cy, cz): (i64, i64, i64) = (
        tri.c.x - tri.a.x,
        tri.c.y - tri.a.y,
        tri.c.z - tri.a.z,
    );
    Point { x: minor(by, cz, bz, cy), y: minor(bz, cx, bx, cz), z: minor(bx, cy, by, cx) }
}

/// Quantities of one planar triangle.
#[derive(Clone, Copy, Debug, PartialEq, Eq, Structural)]
pub struct TriGeom {
    /// Outward unit normal, in millionths.
    pub normal: Point,
    /// In square micrometres.
    pub area: u64,
    pub centroid: Point,
}

/// Twice the area of `tri`, rounded down.
pub open spec fn double_area(tri: Triangle) -> nat {
    floor_sqrt(tri.area_vector().len2() as nat)
}

/// The geometry of `tri`, unless it has almost no area.
pub open spec fn geometry(tri: Triangle) -> Option<TriGeom> {
    let (v, d) = (tri.area_vector(), double_area(tri));
    if d < LEAST_DOUBLE_AREA {
        None
    } else {
        Some(
            TriGeom {
                normal: Point {
                    x: ((v.x * 1_000_000) / d as int) as i64,
                    y: ((v.y * 1_000_000) / d as int) as i64,
                    z: ((v.z * 1_000_000) / d as int) as i64,
                },
                area: (d / 2) as u64,
                centroid: Point {
                    x: ((tri.a.x + tri.b.x + tri.c.x) / 3) as i64,
                    y: ((tri.a.y + tri.b.y + tri.c.y) / 3) as i64,
                    z: ((tri.a.z + tri.b.z + tri.c.z) / 3) as i64,
                },
            },
        )
    }
}

/// One coordinate of a unit normal.
fn unit_part(v: i64, d: u64, n: u128) -> (r: i64)
    requires
        -0x80_0000_0000_0000 <= v <= 0x80_0000_0000_0000,
        square(v as int) <= n,
        d == floor_sqrt(n as nat),
        LEAST_DOUBLE_AREA <= d,
    ensures
        r == (v * 1_000_000) / d as int,
        -1_002_000 <= r <= 1_002_000,
{
    proof {
        crate::geom::lemma_floor_sqrt_exists(n as nat);
        let (m, k) = (magnitude(v as int), d as int);
        assert(m * m == square(v as int)) by (nonlinear_arith)
            requires
                m == v || m == -v,
        ;
        assert(m <= k) by (nonlinear_arith)
            requires
                m * m < (k + 1) * (k + 1),
                0 <= m,
                0 <= k,
        ;
        assert(-1_000_000 * k <= v * 1_000_000 <= 1_000_000 * k);
        assert(-1_002_000 <= (v * 1_000_000) / k <= 1_002_000) by (nonlinear_arith)
            requires
                -1_000_000 * k <= v * 1_000_000 <= 1_000_000 * k,
                0 < k,
        ;
    }
    floor_div(v as i128 * 1_000_000, d as i128) as i64
}

/// The geometry of `tri`, unless it has almost no area.
pub fn tri_geom(tri: &Triangle) -> (g: Option<TriGeom>)
    requires
        tri.within(HULL_LIMIT as int),
    ensures
        g == geometry(*tri),
        g is Some ==> g->0.normal.within(1_002_000) && g->0.centroid.within(HULL_LIMIT as int)
            && 500 <= g->0.area < 0x4000_0000_0000_0000,
{
    let v: Point = area_vector(tri);
    let n: u128 = v.length_squared();
    let d: u64 = integer_sqrt(n);
    if d < LEAST_DOUBLE_AREA {
        return None;
    }
    proof {
        assert(v.x * v.x >= 0 && v.y * v.y >= 0 && v.z * v.z >= 0) by (nonlinear_arith);
    }
    let x: i128 = tri.a.x as i128 + tri.b.x as i128 + tri.c.x as i128;
    let y: i128 = tri.a.y as i128 + tri.b.y as i128 + tri.c.y as i128;
    let z: i128 = tri.a.z as i128 + tri.b.z as i128 + tri.c.z as i128;
    Some(
        TriGeom {
            normal: Point { x: unit_part(v.x, d, n), y: unit_part(v.y, d, n), z: unit_part(v.z, d, n) },
            area: d / 2,
            centroid: Point {
                x: floor_div(x, 3) as i64,
                y: floor_div(y, 3) as i64,
                z: floor_div(z, 3) as i64,
            },
        },
    )
}

/// Whether `tri` has enough area to count towards a volume.
pub open spec fn counts(tri: Triangle) -> bool {
    tri.area_vector().len2() >= LEAST_SQUARE
}

/// What `tri` adds to six times the submerged volume.
pub open spec fn volume_part(tri: Triangle, level: i64) -> int {
    if counts(tri) {
        (tri.a.y + tri.b.y + tri.c.y - 3 * level) * tri.area_y()
    } else {
        0
    }
}

/// Six times the volume under the water of the body whose clipped hull is `tris`.
pub open spec fn sixfold_volume(tris: Seq<Triangle>, level: i64) -> int
    decreases tris.len(),
{
    if tris.len() == 0 {
        0
    } else {
        sixfold_volume(tris.drop_last(), level) + volume_part(tris.last(), level)
    }
}

/// Twelve times the mean square of a coordinate over a triangle, times one half.
pub open spec fn square_sum(p: int, q: int, r: int) -> int {
    p * p + q * q + r * r + p * q + p * r + q * r
}

/// What `tri` adds to twenty-four times the moment along each axis. Heights are taken
/// from the surface.
pub open spec fn moment_part(tri: Triangle, level: i64) -> (int, int, int) {
    if counts(tri) {
        (
            square_sum(tri.a.x as int, tri.b.x as int, tri.c.x as int) * tri.area_x(),
            square_sum(tri.a.y - level, tri.b.y - level, tri.c.y - level) * tri.area_y(),
            square_sum(tri.a.z as int, tri.b.z as int, tri.c.z as int) * tri.area_z(),
        )
    } else {
        (0, 0, 0)
    }
}

/// Twenty-four times the moment of the submerged part along each axis.
pub open spec fn moment(tris: Seq<Triangle>, level: i64) -> (int, int, int)
    decreases tris.len(),
{
    if tris.len() == 0 {
        (0, 0, 0)
    } else {
        let (before, part) = (moment(tris.drop_last(), level), moment_part(tris.last(), level));
        (before.0 + part.0, before.1 + part.1, before.2 + part.2)
    }
}

/// A submerged volume and its centre.
#[derive(Clone, Copy, Debug, PartialEq, Eq, Structural)]
pub struct Buoyancy {
    /// Six times the volume, in cubic micrometres.
    pub sixfold: i128,
    /// The centre of buoyancy, in micrometres.
    pub x: i128,
    pub y: i128,
    pub z: i128,
}

/// The submerged volume and its centre, unless next to nothing is submerged.
pub open spec fn buoyancy(tris: Seq<Triangle>, level: i64) -> Option<Buoyancy> {
    let (v, m) = (sixfold_volume(tris, level), moment(tris, level));
    if v < LEAST_SIXFOLD {
        None
    } else {
        Some(
            Buoyancy {
                sixfold: v as i128,
                x: (m.0 / (4 * v)) as i128,
                y: (m.1 / (4 * v) + level) as i128,
                z: (m.2 / (4 * v)) as i128,
            },
        )
    }
}

/// What one triangle adds to six times the volume.
fn volume_term(tri: &Triangle, v: &Point, level: i64) -> (t: i128)
    requires
        tri.within(HULL_LIMIT as int),
        -HULL_LIMIT <= level <= HULL_LIMIT,
        v.x == tri.area_x(),
        v.y == tri.area_y(),
        v.z == tri.area_z(),
        v.within(0x80_0000_0000_0000),
        counts(*tri),
    ensures
        t == volume_part(*tri, level),
        -0x1000_0000_0000_0000_0000_0000 <= t <= 0x1000_0000_0000_0000_0000_0000,
{
    let h: i128 = tri.a.y as i128 + tri.b.y as i128 + tri.c.y as i128 - 3 * (level as i128);
    proof {
        lemma_product_bound(h as int, v.y as int, 0x1800_0000, 0x80_0000_0000_0000);
    }
    h * (v.y as i128)
}

/// Six times the submerged volume, in cubic micrometres: the volume term of
/// [`submerged_volume_centroid`] without its moments, for callers that never read the
/// centre.
pub fn submerged_volume(clipped: &[Triangle], level: i64) -> (six: i128)
    requires
        clipped.len() <= MAX_TRIANGLES,
        -HULL_LIMIT <= level <= HULL_LIMIT,
        forall|i: int| 0 <= i < clipped.len() ==> (#[trigger] clipped[i]).within(HULL_LIMIT as int),
    ensures
        six == sixfold_volume(clipped@, level),
{
    let mut six: i128 = 0;
    let mut i: usize = 0;
    while i < clipped.len()
        invariant
            i <= clipped.len() <= MAX_TRIANGLES,
            -HULL_LIMIT <= level <= HULL_LIMIT,
            forall|i: int|
                0 <= i < clipped.len() ==> (#[trigger] clipped[i]).within(HULL_LIMIT as int),
            six == sixfold_volume(clipped@.take(i as int), level),
            -0x1000_0000_0000_0000_0000_0000 * i <= six <= 0x1000_0000_0000_0000_0000_0000 * i,
        decreases clipped.len() - i,
    {
        let tri: Triangle = clipped[i];
        assert(clipped@.take(i + 1).drop_last() =~= clipped@.take(i as int));
        assert(tri.within(HULL_LIMIT as int));
        let v: Point = area_vector(&tri);
        if v.length_squared() >= LEAST_SQUARE {
            six = six + volume_term(&tri, &v, level);
        }
        i = i + 1;
    }
    assert(clipped@.take(clipped.len() as int) =~= clipped@);
    six
}

/// The sum of squares and products of three coordinates.
fn square_sum_of(p: i64, q: i64, r: i64) -> (s: i128)
    requires
        -2 * HULL_LIMIT <= p <= 2 * HULL_LIMIT,
        -2 * HULL_LIMIT <= q <= 2 * HULL_LIMIT,
        -2 * HULL_LIMIT <= r <= 2 * HULL_LIMIT,
    ensures
        s == square_sum(p as int, q as int, r as int),
        -0x180_0000_0000_0000 <= s <= 0x180_0000_0000_0000,
{
    proof {
        lemma_product_bound(p as int, p as int, 0x800_0000, 0x800_0000);
        lemma_product_bound(q as int, q as int, 0x800_0000, 0x800_0000);
        lemma_product_bound(r as int, r as int, 0x800_0000, 0x800_0000);
        lemma_product_bound(p as int, q as int, 0x800_0000, 0x800_0000);
        lemma_product_bound(p as int, r as int, 0x800_0000, 0x800_0000);
        lemma_product_bound(q as int, r as int, 0x800_0000, 0x800_0000);
    }
    let (p, q, r): (i128, i128, i128) = (p as i128, q as i128, r as i128);
    p * p + q * q + r * r + p * q + p * r + q * r
}

/// What one triangle adds to a moment along one axis.
fn moment_term(p: i64, q: i64, r: i64, area: i64) -> (t: i128)
    requires
        -2 * HULL_LIMIT <= p <= 2 * HULL_LIMIT,
        -2 * HULL_LIMIT <= q <= 2 * HULL_LIMIT,
        -2 * HULL_LIMIT <= r <= 2 * HULL_LIMIT,
        -0x80_0000_0000_0000 <= area <= 0x80_0000_0000_0000,
    ensures
        t == square_sum(p as int, q as int, r as int) * area,
        -0x1_0000_0000_0000_0000_0000_0000_0000 <= t <= 0x1_0000_0000_0000_0000_0000_0000_0000,
{
    let s: i128 = square_sum_of(p, q, r);
    proof {
        lemma_product_bound(s as int, area as int, 0x180_0000_0000_0000, 0x80_0000_0000_0000);
    }
    s * (area as i128)
}

/// The exact submerged volume and centre of buoyancy of a clipped hull. `None` when next
/// to nothing is submerged.
pub fn submerged_volume_centroid(clipped: &[Triangle], level: i64) -> (r: Option<Buoyancy>)
    requires
        clipped.len() <= MAX_TRIANGLES,
        -HULL_LIMIT <= level <= HULL_LIMIT,
        forall|i: int| 0 <= i < clipped.len() ==> (#[trigger] clipped[i]).within(HULL_LIMIT as int),
    ensures
        r == buoyancy(clipped@, level),
        r is Some ==> LEAST_SIXFOLD <= r->0.sixfold <= 0x200_0000_0000_0000_0000_0000_0000,
{
    let mut six: i128 = 0;
    let (mut mx, mut my, mut mz): (i128, i128, i128) = (0, 0, 0);
    let mut i: usize = 0;
    while i < clipped.len()
        invariant
            i <= clipped.len() <= MAX_TRIANGLES,
            -HULL_LIMIT <= level <= HULL_LIMIT,
            forall|i: int|
                0 <= i < clipped.len() ==> (#[trigger] clipped[i]).within(HULL_LIMIT as int),
            six == sixfold_volume(clipped@.take(i as int), level),
            (mx as int, my as int, mz as int) == moment(clipped@.take(i as int), level),
            -0x1000_0000_0000_0000_0000_0000 * i <= six <= 0x1000_0000_0000_0000_0000_0000 * i,
            -0x1_0000_0000_0000_0000_0000_0000_0000 * i <= mx
                <= 0x1_0000_0000_0000_0000_0000_0000_0000 * i,
            -0x1_0000_0000_0000_0000_0000_0000_0000 * i <= my
                <= 0x1_0000_0000_0000_0000_0000_0000_0000 * i,
            -0x1_0000_0000_0000_0000_0000_0000_0000 * i <= mz
                <= 0x1_0000_0000_0000_0000_0000_0000_0000 * i,
        decreases clipped.len() - i,
    {
        let tri: Triangle = clipped[i];
        assert(clipped@.take(i + 1).drop_last() =~= clipped@.take(i as int));
        assert(tri.within(HULL_LIMIT as int));
        let v: Point = area_vector(&tri);
        if v.length_squared() >= LEAST_SQUARE {
            six = six + volume_term(&tri, &v, level);
            mx = mx + moment_term(tri.a.x, tri.b.x, tri.c.x, v.x);
            my = my + moment_term(tri.a.y - level, tri.b.y - level, tri.c.y - level, v.y);
            mz = mz + moment_term(tri.a.z, tri.b.z, tri.c.z, v.z);
        }
        i = i + 1;
    }
    assert(clipped@.take(clipped.len() as int) =~= clipped@);
    if six < LEAST_SIXFOLD {
        return None;
    }
    let d: i128 = 4 * six;
    Some(
        Buoyancy {
            sixfold: six,
            x: floor_div(mx, d),
            y: floor_div(my, d) + level as i128,
            z: floor_div(mz, d),
        },
    )
}

/// The two ways to a volume agree: wherever a centre of buoyancy is found, its volume is
/// the one that the volume alone would give.
pub proof fn law_both_volumes_agree(tris: Seq<Triangle>, level: i64)
    requires
        buoyancy(tris, level) is Some,
        sixfold_volume(tris, level) <= i128::MAX,
    ensures
        buoyancy(tris, level)->0.sixfold == sixfold_volume(tris, level),
        buoyancy(tris, level)->0.sixfold >= LEAST_SIXFOLD,
{
}

} // verus!
