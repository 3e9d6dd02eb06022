//! The body's shape, what is built from it, and when that is built anew.

use vstd::prelude::*;
use crate::geom::{floor_div, Point};
use crate::geom::lemma_product_bound;
use crate::lists::{lemma_pick_none, lemma_pick_step, pick};
use super::hydro::{frustum_triangles, ring_point, tri_geom, Heading, Shape, TriGeom, Triangle};
use super::hydro::{geometry, headings_valid, hull, lemma_hull_size, magnitude, ring_spot};
use super::hydro::{RIM_EPSILON, SHAPE_LIMIT};
use super::{rings_at, segments_at, SimParams};

verus! {

/// The highest resolution of the voxel grid.
pub const MAX_VOXEL_RES: u32 = 64;

/// The highest resolution of the hull.
pub const MAX_HULL_RES: u32 = 64;

/// The most triangles that a hull of that resolution has.
pub const MAX_HULL_TRIANGLES: usize = 0x1000;

/// The most volume that a triangle can sweep, in cubic micrometres per second.
pub const SWEEP_LIMIT: u128 = 0x1000_0000_0000_0000_0000_0000;

/// How many segments the shown mesh and the collider have around the axis.
pub const SHAPE_SEGMENTS: usize = 32;

/// The largest measure or coordinate that [`inside`] is asked about.
pub const GRID_LIMIT: i64 = 0x4000_0000;

// ---- The solid -----------------------------------------------------------------------

/// Whether the point `(x, y, z)` lies in a frustum: not past an end, and no farther from
/// the axis than the wall is at that height. Both sides of the second condition are
/// multiplied by the square of twice the length, so that it is exact.
pub open spec fn inside(r_top: int, r_bottom: int, length: int, x: int, y: int, z: int) -> bool {
    let reach = r_bottom * (2 * length) + (r_top - r_bottom) * (2 * y + length);
    &&& 2 * magnitude(y) <= length
    &&& (x * x + z * z) * ((2 * length) * (2 * length)) <= reach * reach
}

fn is_inside(r_top: i64, r_bottom: i64, length: i64, x: i64, y: i64, z: i64) -> (r: bool)
    requires
        0 <= r_top <= GRID_LIMIT,
        0 <= r_bottom <= GRID_LIMIT,
        0 <= length <= GRID_LIMIT,
        -GRID_LIMIT <= x <= GRID_LIMIT,
        -GRID_LIMIT <= y <= GRID_LIMIT,
        -GRID_LIMIT <= z <= GRID_LIMIT,
    ensures
        r == inside(r_top as int, r_bottom as int, length as int, x as int, y as int, z as int),
{
    if 2 * y > length || 2 * y < -length {
        return false;
    }
    let (rt, rb, l): (i128, i128, i128) = (r_top as i128, r_bottom as i128, length as i128);
    let (x, y, z): (i128, i128, i128) = (x as i128, y as i128, z as i128);
    proof {
        lemma_product_bound(rb as int, 2 * l, 0x4000_0000, 0x8000_0000);
        lemma_product_bound(rt - rb, 2 * y + l, 0x4000_0000, 0x8000_0000);
    }
    let reach: i128 = rb * (2 * l) + (rt - rb) * (2 * y + l);
    proof {
        lemma_product_bound(
            reach as int,
            reach as int,
            0x4000_0000_0000_0000,
            0x4000_0000_0000_0000,
        );
        lemma_product_bound(x as int, x as int, 0x4000_0000, 0x4000_0000);
        lemma_product_bound(z as int, z as int, 0x4000_0000, 0x4000_0000);
        lemma_product_bound(2 * l, 2 * l, 0x8000_0000, 0x8000_0000);
        lemma_product_bound(
            x * x + z * z,
            (2 * l) * (2 * l),
            0x2000_0000_0000_0000,
            0x4000_0000_0000_0000,
        );
    }
    (x * x + z * z) * ((2 * l) * (2 * l)) <= reach * reach
}

/// Whether the point `p` of the body's own frame lies in the body.
pub fn frustum_contains(shape: &Shape, p: &Point) -> (r: bool)
    requires
        shape.valid(),
        p.within(GRID_LIMIT as int),
    ensures
        r == inside(
            shape.r_top as int,
            shape.r_bottom as int,
            shape.length as int,
            p.x as int,
            p.y as int,
            p.z as int,
        ),
{
    is_inside(shape.r_top, shape.r_bottom, shape.length, p.x, p.y, p.z)
}

/// The cavity of a shell with walls `wall` thick; none where the walls meet.
pub open spec fn cavity(shape: Shape, wall: int) -> Option<Shape> {
    let (rt, rb, l) = (shape.r_top - wall, shape.r_bottom - wall, shape.length - 2 * wall);
    if rt > RIM_EPSILON && rb > RIM_EPSILON && l > RIM_EPSILON {
        Some(Shape { r_top: rt as i64, r_bottom: rb as i64, length: l as i64 })
    } else {
        None
    }
}

/// The cavity of the hollow shell: the body inset by the wall, radially and at both ends.
/// `None` when the walls meet, so that the body is solid.
pub fn inner_shape(shape: &Shape, wall: i64) -> (r: Option<Shape>)
    requires
        shape.valid(),
        0 <= wall <= SHAPE_LIMIT,
    ensures
        r == cavity(*shape, wall as int),
        r is Some ==> r->0.valid(),
{
    let inner: Shape = Shape {
        r_top: shape.r_top - wall,
        r_bottom: shape.r_bottom - wall,
        length: shape.length - 2 * wall,
    };
    if inner.r_top > RIM_EPSILON && inner.r_bottom > RIM_EPSILON && inner.length > RIM_EPSILON {
        Some(inner)
    } else {
        None
    }
}

/// A thicker wall never opens a cavity, and every cavity fits into its body with the wall
/// to spare on every side.
pub proof fn law_cavity_is_inset(shape: Shape, thin: int, thick: int)
    requires
        shape.valid(),
        0 <= thin <= thick,
    ensures
        cavity(shape, thick) is Some ==> cavity(shape, thin) is Some,
        cavity(shape, thick) matches Some(c) ==> {
            &&& c.valid()
            &&& c.r_top + thick == shape.r_top
            &&& c.r_bottom + thick == shape.r_bottom
            &&& c.length + 2 * thick == shape.length
        },
{
}

// ---- The shown mesh and the collider -------------------------------------------------

/// The lateral surface of the body, as it is shown.
pub struct SideMesh {
    pub positions: Vec<Point>,
    /// For each position, a vector along its normal; its length says nothing.
    pub normals: Vec<Point>,
    pub indices: Vec<u32>,
}

/// Half the body's length, rounded down.
pub open spec fn half_length(shape: Shape) -> int {
    shape.length / 2
}

/// Vertex `v` of the side mesh: the two rims in turn, once around and closed.
pub open spec fn side_position(shape: Shape, headings: Seq<Heading>, v: int) -> Point {
    let h = headings[(v / 2) % headings.len() as int];
    if v % 2 == 0 {
        ring_spot(h, half_length(shape), shape.r_top as int)
    } else {
        ring_spot(h, -half_length(shape), shape.r_bottom as int)
    }
}

/// A vector along the normal at vertex `v`: outwards, tilted by the wall's slope.
pub open spec fn side_normal(shape: Shape, headings: Seq<Heading>, v: int) -> Point {
    let h = headings[(v / 2) % headings.len() as int];
    Point {
        x: (h.cos * shape.length) as i64,
        y: ((shape.r_bottom - shape.r_top) * 1_000_000) as i64,
        z: (h.sin * shape.length) as i64,
    }
}

/// Index `k` of the side mesh: two triangles for each segment, wound outwards.
pub open spec fn side_index(k: int) -> int {
    let base = 2 * (k / 6);
    let c = k % 6;
    if c == 0 {
        base
    } else if c == 1 || c == 4 {
        base + 2
    } else if c == 2 || c == 3 {
        base + 1
    } else {
        base + 3
    }
}

/// The mesh of the lateral surface; the ends are discs of their own.
pub fn frustum_side_mesh(shape: &Shape, headings: &[Heading]) -> (mesh: SideMesh)
    requires
        shape.valid(),
        headings_valid(headings@),
    ensures
        mesh.positions@ == Seq::new(
            (2 * (headings.len() + 1)) as nat,
            |v: int| side_position(*shape, headings@, v),
        ),
        mesh.normals@ == Seq::new(
            (2 * (headings.len() + 1)) as nat,
            |v: int| side_normal(*shape, headings@, v),
        ),
        mesh.indices@.len() == 6 * headings.len(),
        forall|k: int| 0 <= k < mesh.indices@.len() ==> #[trigger] mesh.indices@[k] == side_index(k),
{
    let n: usize = headings.len();
    let half: i64 = shape.length / 2;
    let mut positions: Vec<Point> = Vec::new();
    let mut normals: Vec<Point> = Vec::new();
    let mut i: usize = 0;
    while i <= n
        invariant
            shape.valid(),
            headings_valid(headings@),
            n == headings.len(),
            i <= n + 1,
            half == half_length(*shape),
            positions@.len() == 2 * i,
            normals@.len() == 2 * i,
            forall|v: int|
                0 <= v < positions@.len() ==> #[trigger] positions@[v] == side_position(
                    *shape,
                    headings@,
                    v,
                ),
            forall|v: int|
                0 <= v < normals@.len() ==> #[trigger] normals@[v] == side_normal(
                    *shape,
                    headings@,
                    v,
                ),
        decreases n + 1 - i,
    {
        let k: usize = i % n;
        let h: Heading = headings[k];
        assert(headings@[k as int].valid());
        positions.push(ring_point(&h, half, shape.r_top));
        positions.push(ring_point(&h, -half, shape.r_bottom));
        proof {
            lemma_product_bound(h.cos as int, shape.length as int, 1_000_000, SHAPE_LIMIT as int);
            lemma_product_bound(h.sin as int, shape.length as int, 1_000_000, SHAPE_LIMIT as int);
        }
        let normal: Point = Point {
            x: h.cos * shape.length,
            y: (shape.r_bottom - shape.r_top) * 1_000_000,
            z: h.sin * shape.length,
        };
        normals.push(normal);
        normals.push(normal);
        i = i + 1;
    }
    let mut indices: Vec<u32> = Vec::new();
    let mut s: u32 = 0;
    while (s as usize) < n
        invariant
            n == headings.len() <= 0x1000,
            s <= n,
            indices@.len() == 6 * s,
            forall|k: int| 0 <= k < indices@.len() ==> #[trigger] indices@[k] == side_index(k),
        decreases n - s,
    {
        let (t0, b0, t1, b1): (u32, u32, u32, u32) = (2 * s, 2 * s + 1, 2 * s + 2, 2 * s + 3);
        indices.push(t0);
        indices.push(t1);
        indices.push(b0);
        indices.push(b0);
        indices.push(t1);
        indices.push(b1);
        s = s + 1;
    }
    assert(positions@ =~= Seq::new(
        (2 * (headings.len() + 1)) as nat,
        |v: int| side_position(*shape, headings@, v),
    ));
    assert(normals@ =~= Seq::new(
        (2 * (headings.len() + 1)) as nat,
        |v: int| side_normal(*shape, headings@, v),
    ));
    SideMesh { positions, normals, indices }
}

/// Every triangle of the shown mesh joins vertices that it has.
pub proof fn law_side_mesh_is_sound(n: int, k: int)
    requires
        0 <= k < 6 * n,
    ensures
        0 <= side_index(k) < 2 * (n + 1),
{
}

/// The points whose hull the body collides with: both rims, in turn.
pub fn collider_points(shape: &Shape, headings: &[Heading]) -> (points: Vec<Point>)
    requires
        shape.valid(),
        headings_valid(headings@),
    ensures
        points@ == Seq::new(
            (2 * headings.len()) as nat,
            |v: int| side_position(*shape, headings@, v),
        ),
{
    let half: i64 = shape.length / 2;
    let mut points: Vec<Point> = Vec::new();
    let mut i: usize = 0;
    while i < headings.len()
        invariant
            shape.valid(),
            headings_valid(headings@),
            i <= headings.len(),
            half == half_length(*shape),
            points@.len() == 2 * i,
            forall|v: int|
                0 <= v < points@.len() ==> #[trigger] points@[v] == side_position(
                    *shape,
                    headings@,
                    v,
                ),
        decreases headings.len() - i,
    {
        let h: Heading = headings[i];
        assert(headings@[i as int].valid());
        assert(i as int % headings@.len() as int == i) by {
            vstd::arithmetic::div_mod::lemma_small_mod(i as nat, headings@.len());
        }
        points.push(ring_point(&h, half, shape.r_top));
        points.push(ring_point(&h, -half, shape.r_bottom));
        i = i + 1;
    }
    assert(points@ =~= Seq::new(
        (2 * headings.len()) as nat,
        |v: int| side_position(*shape, headings@, v),
    ));
    points
}

// ---- The shown pieces ----------------------------------------------------------------

/// The pieces in which the body is shown.
#[derive(Clone, Copy, Debug, PartialEq, Eq, Structural)]
pub enum BuoyPart {
    Side,
    /// The wall of the cavity, seen through the outer one; hidden when the body is solid.
    InnerSide,
    /// The end disc at the upper end (`true`, side 1) or the lower end (side 2).
    Cap { upper: bool },
}

/// The pose of an end disc: its height, and the quarter turns about x that make it face
/// outwards.
#[derive(Clone, Copy, Debug, PartialEq, Eq, Structural)]
pub struct CapPose {
    pub y: i64,
    pub quarter_turns_x: i8,
}

/// The pose of the end disc at one end.
pub open spec fn cap_pose(shape: Shape, upper: bool) -> CapPose {
    if upper {
        CapPose { y: half_length(shape) as i64, quarter_turns_x: (-1) as i8 }
    } else {
        CapPose { y: (-half_length(shape)) as i64, quarter_turns_x: 1 }
    }
}

/// The pose of an end disc: half the length out, facing away from the body.
pub fn cap_transform(shape: &Shape, upper: bool) -> (pose: CapPose)
    requires
        shape.valid(),
    ensures
        pose == cap_pose(*shape, upper),
{
    let half: i64 = shape.length / 2;
    if upper {
        CapPose { y: half, quarter_turns_x: -1 }
    } else {
        CapPose { y: -half, quarter_turns_x: 1 }
    }
}

/// The radius of an end disc.
pub fn cap_radius(shape: &Shape, upper: bool) -> (r: i64)
    ensures
        r == if upper {
            shape.r_top
        } else {
            shape.r_bottom
        },
{
    if upper {
        shape.r_top
    } else {
        shape.r_bottom
    }
}

/// What becomes of one shown piece when the shape changes.
#[derive(Clone, Copy, Debug, PartialEq, Eq, Structural)]
pub enum PartPlan {
    /// A new mesh of this body's wall; the piece's visibility stays.
    Wall { shape: Shape },
    /// A new mesh of the cavity's wall, shown.
    Cavity { shape: Shape },
    /// There is no cavity: hidden, its mesh left as it was.
    Hidden,
    /// A new disc of this radius in this pose.
    Disc { radius: i64, pose: CapPose },
}

/// What becomes of the piece `part` of a body `shape` with walls `wall` thick.
pub open spec fn part_plan(part: BuoyPart, shape: Shape, wall: int) -> PartPlan {
    match part {
        BuoyPart::Side => PartPlan::Wall { shape },
        BuoyPart::InnerSide => match cavity(shape, wall) {
            Some(c) => PartPlan::Cavity { shape: c },
            None => PartPlan::Hidden,
        },
        BuoyPart::Cap { upper } => PartPlan::Disc {
            radius: if upper {
                shape.r_top
            } else {
                shape.r_bottom
            },
            pose: cap_pose(shape, upper),
        },
    }
}

/// The sliders that the shown pieces and the collider are built for.
#[derive(Clone, Copy, Debug, PartialEq, Eq, Structural)]
pub struct ShapeKey {
    pub shape: Shape,
    pub wall: i64,
}

/// When a shape slider moved, what becomes of each shown piece; the collider is then
/// built anew as well. `None` while nothing moved.
pub fn rebuild_shape(
    params: &SimParams,
    cache: &mut Option<ShapeKey>,
    parts: &[BuoyPart],
) -> (plans: Option<Vec<PartPlan>>)
    requires
        params.valid(),
    ensures
        *final(cache) == Some(ShapeKey { shape: params.shape, wall: params.wall }),
        plans is None <==> *old(cache) == Some(
            ShapeKey { shape: params.shape, wall: params.wall },
        ),
        plans is Some ==> plans->0@ == parts@.map_values(
            |part: BuoyPart| part_plan(part, params.shape, params.wall as int),
        ),
{
    let key: ShapeKey = ShapeKey { shape: params.shape, wall: params.wall };
    if let Some(built) = *cache {
        if built == key {
            return None;
        }
    }
    *cache = Some(key);
    let inner: Option<Shape> = inner_shape(&params.shape, params.wall);
    let mut plans: Vec<PartPlan> = Vec::new();
    let mut i: usize = 0;
    while i < parts.len()
        invariant
            params.valid(),
            inner == cavity(params.shape, params.wall as int),
            i <= parts.len(),
            plans@.len() == i,
            forall|k: int|
                0 <= k < i ==> #[trigger] plans@[k] == part_plan(
                    parts@[k],
                    params.shape,
                    params.wall as int,
                ),
        decreases parts.len() - i,
    {
        let plan: PartPlan = match parts[i] {
            BuoyPart::Side => PartPlan::Wall { shape: params.shape },
            BuoyPart::InnerSide => match inner {
                Some(c) => PartPlan::Cavity { shape: c },
                None => PartPlan::Hidden,
            },
            BuoyPart::Cap { upper } => PartPlan::Disc {
                radius: cap_radius(&params.shape, upper),
                pose: cap_transform(&params.shape, upper),
            },
        };
        plans.push(plan);
        i = i + 1;
    }
    assert(plans@ =~= parts@.map_values(
        |part: BuoyPart| part_plan(part, params.shape, params.wall as int),
    ));
    Some(plans)
}

/// The sliders that the mass was computed for.
#[derive(Clone, Copy, Debug, PartialEq, Eq, Structural)]
pub struct MassKey {
    pub shape: Shape,
    pub wall: i64,
    pub density: u64,
}

/// What the mass of a shell is computed from: the outer body less its cavity, both at the
/// density of the material. A sealed shell still displaces its whole outer volume.
#[derive(Clone, Copy, Debug, PartialEq, Eq, Structural)]
pub struct ShellSolid {
    pub outer: Shape,
    pub cavity: Option<Shape>,
    pub density: u64,
}

/// The solids whose difference the shell's mass is.
pub fn shell_mass_props(shape: &Shape, wall: i64, density: u64) -> (s: ShellSolid)
    requires
        shape.valid(),
        0 <= wall <= SHAPE_LIMIT,
    ensures
        s == (ShellSolid { outer: *shape, cavity: cavity(*shape, wall as int), density }),
{
    ShellSolid { outer: *shape, cavity: inner_shape(shape, wall), density }
}

/// When the density, the shape or the wall changed, the solids to weigh anew. `None` while
/// nothing changed.
pub fn sync_mass_props(params: &SimParams, cache: &mut Option<MassKey>) -> (r: Option<ShellSolid>)
    requires
        params.valid(),
    ensures
        *final(cache) == Some(params.mass_key()),
        r is None <==> *old(cache) == Some(params.mass_key()),
        r is Some ==> r->0 == (ShellSolid {
            outer: params.shape,
            cavity: cavity(params.shape, params.wall as int),
            density: params.density,
        }),
{
    let key: MassKey = MassKey {
        shape: params.shape,
        wall: params.wall,
        density: params.density,
    };
    if let Some(built) = *cache {
        if built == key {
            return None;
        }
    }
    *cache = Some(key);
    Some(shell_mass_props(&params.shape, params.wall, params.density))
}

// ---- The voxel grid ------------------------------------------------------------------

/// The longest side of the box around the body.
pub open spec fn longest_side(shape: Shape) -> int {
    let r = if shape.r_top >= shape.r_bottom {
        shape.r_top
    } else {
        shape.r_bottom
    };
    if 2 * r >= shape.length {
        2 * r
    } else {
        shape.length as int
    }
}

/// The width of the box around the body.
pub open spec fn box_width(shape: Shape) -> int {
    2 * (if shape.r_top >= shape.r_bottom {
        shape.r_top
    } else {
        shape.r_bottom
    })
}

/// How many cells `extent` takes when the longest side takes `res`: rounded up, and at
/// least one.
pub open spec fn cell_count(extent: int, side: int, res: int) -> int {
    let c = (extent * res + side - 1) / side;
    if c < 1 {
        1
    } else {
        c
    }
}

/// The middle of cell `i` out of `count`, in micrometres times `2 * res`.
pub open spec fn cell_middle(i: int, count: int, side: int) -> int {
    side * (2 * i + 1 - count)
}

/// The voxel grid around a body.
pub struct Grid {
    pub side: i64,
    pub res: u32,
    pub across: usize,
    pub along: usize,
}

impl Grid {
    /// The grid of `res` cells along the longest side of `shape`.
    pub open spec fn fits(self, shape: Shape, res: u32) -> bool {
        &&& self.side == longest_side(shape)
        &&& self.res == res
        &&& self.across == cell_count(box_width(shape), longest_side(shape), res as int)
        &&& self.along == cell_count(shape.length as int, longest_side(shape), res as int)
    }

    pub open spec fn total(self) -> int {
        self.across * (self.along * self.across)
    }

    /// Cell `k`: its column, its layer and its row, of which the row runs fastest.
    pub open spec fn cell(self, k: int) -> (int, int, int) {
        (
            k / (self.along * self.across),
            (k / self.across as int) % self.along as int,
            k % self.across as int,
        )
    }

    /// The middle of cell `k`, in micrometres times `2 * res`.
    pub open spec fn middle(self, k: int) -> (int, int, int) {
        let c = self.cell(k);
        (
            cell_middle(c.0, self.across as int, self.side as int),
            cell_middle(c.1, self.along as int, self.side as int),
            cell_middle(c.2, self.across as int, self.side as int),
        )
    }

    /// Whether the middle of cell `k` lies in `shape`.
    pub open spec fn occupied(self, shape: Shape, k: int) -> bool {
        let (m, p) = (2 * self.res, self.middle(k));
        inside(m * shape.r_top, m * shape.r_bottom, m * shape.length, p.0, p.1, p.2)
    }

    /// The middle of cell `k`, rounded down to whole micrometres.
    pub open spec fn centre(self, k: int) -> Point {
        let (m, p) = (2 * self.res as int, self.middle(k));
        Point { x: (p.0 / m) as i64, y: (p.1 / m) as i64, z: (p.2 / m) as i64 }
    }

    /// The middles of the cells that lie in `shape`.
    pub open spec fn centres(self, shape: Shape) -> Seq<Point> {
        pick(
            Seq::new(self.total() as nat, |k: int| k),
            |k: int| self.occupied(shape, k),
            |k: int| self.centre(k),
        )
    }
}

/// A grid is no larger than its resolution allows.
proof fn lemma_cell_count(extent: int, side: int, res: int)
    requires
        0 <= extent <= side,
        0 < side,
        1 <= res,
    ensures
        1 <= cell_count(extent, side, res) <= res,
{
    assert(extent * res <= side * res) by (nonlinear_arith)
        requires
            extent <= side,
            1 <= res,
    ;
    assert((extent * res + side - 1) / side <= res) by (nonlinear_arith)
        requires
            extent * res <= side * res,
            0 < side,
    ;
}

/// The cells that `extent` takes.
fn count_cells(extent: i64, side: i64, res: u32) -> (c: usize)
    requires
        0 <= extent <= side <= 2 * SHAPE_LIMIT,
        0 < side,
        1 <= res <= MAX_VOXEL_RES,
    ensures
        c == cell_count(extent as int, side as int, res as int),
        1 <= c <= res,
{
    proof {
        lemma_cell_count(extent as int, side as int, res as int);
        lemma_product_bound(extent as int, res as int, 0x100_0000, 64);
    }
    let c: i128 = floor_div(extent as i128 * res as i128 + side as i128 - 1, side as i128);
    if c < 1 {
        1
    } else {
        c as usize
    }
}

/// The grid of `res` cells along the longest side of `shape`.
pub fn voxel_grid(shape: &Shape, res: u32) -> (grid: Grid)
    requires
        shape.valid(),
        1 <= res <= MAX_VOXEL_RES,
    ensures
        grid.fits(*shape, res),
        1 <= grid.across <= res,
        1 <= grid.along <= res,
        0 < grid.side <= 2 * SHAPE_LIMIT,
{
    let r: i64 = if shape.r_top >= shape.r_bottom {
        shape.r_top
    } else {
        shape.r_bottom
    };
    let side: i64 = if 2 * r >= shape.length {
        2 * r
    } else {
        shape.length
    };
    Grid {
        side,
        res,
        across: count_cells(2 * r, side, res),
        along: count_cells(shape.length, side, res),
    }
}

/// The middle of a cell, at the grid's scale.
fn middle_of(i: usize, count: usize, side: i64) -> (m: i64)
    requires
        i < count <= MAX_VOXEL_RES,
        0 < side <= 2 * SHAPE_LIMIT,
    ensures
        m == cell_middle(i as int, count as int, side as int),
        -(side * count) <= m <= side * count,
        -GRID_LIMIT <= m <= GRID_LIMIT,
{
    let t: i64 = 2 * (i as i64) + 1 - count as i64;
    proof {
        lemma_product_bound(side as int, t as int, side as int, count as int);
        lemma_product_bound(side as int, count as int, 0x100_0000, 64);
    }
    side * t
}

/// A middle at the grid's scale, in whole micrometres.
fn middle_in_um(m: i64, count: usize, side: i64, res: u32) -> (c: i64)
    requires
        -(side * count) <= m <= side * count,
        0 < side <= 2 * SHAPE_LIMIT,
        1 <= count <= res <= MAX_VOXEL_RES,
        -GRID_LIMIT <= m <= GRID_LIMIT,
    ensures
        c == m as int / (2 * res as int),
        -SHAPE_LIMIT <= c <= SHAPE_LIMIT,
{
    proof {
        let d = 2 * res as int;
        assert(side * count <= side * res) by (nonlinear_arith)
            requires
                0 < side,
                1 <= count <= res,
        ;
        assert(-0x80_0000 <= m as int / d <= 0x80_0000) by (nonlinear_arith)
            requires
                -(side * res) <= m <= side * res,
                0 < side <= 0x100_0000,
                d == 2 * res,
                1 <= res,
        ;
    }
    floor_div(m as i128, 2 * res as i128) as i64
}

/// The middles of the cells of `grid` that lie in `shape`, in micrometres.
pub fn voxelise(shape: &Shape, grid: &Grid) -> (centres: Vec<Point>)
    requires
        shape.valid(),
        1 <= grid.res <= MAX_VOXEL_RES,
        grid.fits(*shape, grid.res),
    ensures
        centres@ == grid.centres(*shape),
        forall|i: int|
            0 <= i < centres@.len() ==> (#[trigger] centres@[i]).within(SHAPE_LIMIT as int),
{
    proof {
        lemma_cell_count(box_width(*shape), longest_side(*shape), grid.res as int);
        lemma_cell_count(shape.length as int, longest_side(*shape), grid.res as int);
    }
    let (nx, ny): (usize, usize) = (grid.across, grid.along);
    proof {
        lemma_product_bound(ny as int, nx as int, 64, 64);
        lemma_product_bound(nx as int, ny * nx, 64, 4096);
        assert(0 < ny * nx) by (nonlinear_arith)
            requires
                0 < ny,
                0 < nx,
        ;
    }
    let layer: usize = ny * nx;
    let total: usize = nx * layer;
    let ghost all = Seq::new(grid.total() as nat, |k: int| k);
    let ghost p = |k: int| grid.occupied(*shape, k);
    let ghost f = |k: int| grid.centre(k);
    let m: i64 = 2 * (grid.res as i64);
    proof {
        lemma_product_bound(m as int, shape.r_top as int, 128, SHAPE_LIMIT as int);
        lemma_product_bound(m as int, shape.r_bottom as int, 128, SHAPE_LIMIT as int);
        lemma_product_bound(m as int, shape.length as int, 128, SHAPE_LIMIT as int);
        assert(0 <= m * shape.r_top && 0 <= m * shape.r_bottom && 0 <= m * shape.length)
            by (nonlinear_arith)
            requires
                0 <= m,
                0 <= shape.r_top,
                0 <= shape.r_bottom,
                0 <= shape.length,
        ;
    }
    let (rt, rb, l): (i64, i64, i64) = (m * shape.r_top, m * shape.r_bottom, m * shape.length);
    let mut centres: Vec<Point> = Vec::new();
    let mut k: usize = 0;
    proof {
        lemma_pick_none(all, p, f);
    }
    while k < total
        invariant
            shape.valid(),
            1 <= grid.res <= MAX_VOXEL_RES,
            grid.fits(*shape, grid.res),
            0 < grid.side <= 2 * SHAPE_LIMIT,
            1 <= nx <= grid.res,
            1 <= ny <= grid.res,
            nx == grid.across,
            ny == grid.along,
            0 < layer <= 4096,
            layer == ny * nx,
            total == nx * layer,
            total == grid.total(),
            k <= total,
            m == 2 * grid.res,
            rt == m * shape.r_top,
            rb == m * shape.r_bottom,
            l == m * shape.length,
            0 <= rt <= GRID_LIMIT,
            0 <= rb <= GRID_LIMIT,
            0 <= l <= GRID_LIMIT,
            all == Seq::new(grid.total() as nat, |k: int| k),
            p == (|k: int| grid.occupied(*shape, k)),
            f == (|k: int| grid.centre(k)),
            centres@ == pick(all.take(k as int), p, f),
            forall|i: int|
                0 <= i < centres@.len() ==> (#[trigger] centres@[i]).within(SHAPE_LIMIT as int),
        decreases total - k,
    {
        let (ix, iy, iz): (usize, usize, usize) = (k / layer, (k / nx) % ny, k % nx);
        assert(ix < nx) by (nonlinear_arith)
            requires
                ix == k / layer,
                k < nx * layer,
                0 < layer,
        ;
        let x: i64 = middle_of(ix, nx, grid.side);
        let y: i64 = middle_of(iy, ny, grid.side);
        let z: i64 = middle_of(iz, nx, grid.side);
        proof {
            lemma_pick_step(all, k as int, p, f);
            assert(all[k as int] == k as int);
        }
        if is_inside(rt, rb, l, x, y, z) {
            centres.push(
                Point {
                    x: middle_in_um(x, nx, grid.side, grid.res),
                    y: middle_in_um(y, ny, grid.side, grid.res),
                    z: middle_in_um(z, nx, grid.side, grid.res),
                },
            );
        }
        k = k + 1;
    }
    assert(all.take(total as int) =~= all);
    centres
}

/// What the voxel method keeps from frame to frame.
pub struct VoxelCache {
    /// The shape and resolution that the rest was built for.
    pub key: Option<VoxelKey>,
    pub centres: Vec<Point>,
    /// The longest side of the body; a cell is that over the resolution.
    pub side: i64,
}

/// What a voxel grid is built for.
#[derive(Clone, Copy, Debug, PartialEq, Eq, Structural)]
pub struct VoxelKey {
    pub shape: Shape,
    pub res: u32,
}

impl VoxelCache {
    /// Nothing is built yet.
    pub fn new() -> (cache: VoxelCache)
        ensures
            cache.key is None,
            cache.centres@ == Seq::<Point>::empty(),
            cache.wf(),
    {
        VoxelCache { key: None, centres: Vec::new(), side: 0 }
    }

    /// Whether the cells are those of the shape and resolution that the cache names.
    pub open spec fn wf(&self) -> bool {
        self.key matches Some(key) ==> {
            &&& key.shape.valid()
            &&& 1 <= key.res <= MAX_VOXEL_RES
            &&& self.side == longest_side(key.shape)
            &&& self.centres@ == grid_of(key.shape, key.res).centres(key.shape)
            &&& forall|i: int|
                0 <= i < self.centres@.len() ==> (#[trigger] self.centres@[i]).within(
                    SHAPE_LIMIT as int,
                )
        }
    }
}

/// The grid of `res` cells along the longest side of `shape`.
pub open spec fn grid_of(shape: Shape, res: u32) -> Grid {
    Grid {
        side: longest_side(shape) as i64,
        res,
        across: cell_count(box_width(shape), longest_side(shape), res as int) as usize,
        along: cell_count(shape.length as int, longest_side(shape), res as int) as usize,
    }
}

/// Voxelises the body anew when its shape or the resolution changed.
pub fn refresh_voxel_cache(params: &SimParams, cache: &mut VoxelCache)
    requires
        params.valid(),
        old(cache).wf(),
    ensures
        final(cache).wf(),
        final(cache).key == Some(VoxelKey { shape: params.shape, res: params.voxel_res }),
        old(cache).key == final(cache).key ==> *final(cache) == *old(cache),
{
    let key: VoxelKey = VoxelKey { shape: params.shape, res: params.voxel_res };
    if let Some(built) = cache.key {
        if built == key {
            return;
        }
    }
    let grid: Grid = voxel_grid(&params.shape, params.voxel_res);
    assert(grid == grid_of(params.shape, params.voxel_res));
    let centres: Vec<Point> = voxelise(&params.shape, &grid);
    cache.side = grid.side;
    cache.centres = centres;
    cache.key = Some(key);
}

// ---- The hull ------------------------------------------------------------------------

/// What the mesh methods keep from frame to frame.
pub struct HullCache {
    pub key: Option<HullKey>,
    pub tris: Vec<Triangle>,
    /// The geometry of each triangle; none where it has almost no area.
    pub tri_geoms: Vec<Option<TriGeom>>,
    /// The area of the whole hull, in square micrometres.
    pub total_area: u128,
    /// Each triangle's rate of swept volume in the frame before, in cubic micrometres per
    /// second.
    pub prev_dv: Vec<u128>,
}

/// What a hull is built for.
#[derive(Clone, Copy, Debug, PartialEq, Eq, Structural)]
pub struct HullKey {
    pub shape: Shape,
    pub res: u32,
}

impl HullKey {
    /// Whether `tris` are the hull of this shape and resolution, with its segments at some
    /// headings.
    pub open spec fn describes(self, tris: Seq<Triangle>) -> bool {
        exists|headings: Seq<Heading>|
            headings_valid(headings) && headings.len() == segments_at(self.res) && tris
                == #[trigger] hull(self.shape, headings, rings_at(self.res))
    }
}

/// The area of all triangles that have one.
pub open spec fn area_sum(geoms: Seq<Option<TriGeom>>) -> nat
    decreases geoms.len(),
{
    if geoms.len() == 0 {
        0
    } else {
        area_sum(geoms.drop_last()) + match geoms.last() {
            Some(g) => g.area as nat,
            None => 0,
        }
    }
}

impl HullCache {
    /// Nothing is built yet.
    pub fn new() -> (cache: HullCache)
        ensures
            cache.key is None,
            cache.wf(),
    {
        let cache: HullCache = HullCache {
            key: None,
            tris: Vec::new(),
            tri_geoms: Vec::new(),
            total_area: 0,
            prev_dv: Vec::new(),
        };
        assert(cache.tri_geoms@ =~= cache.tris@.map_values(|t: Triangle| geometry(t)));
        cache
    }

    /// Whether everything kept belongs to the same hull: that of the shape and resolution that
    /// the cache names.
    pub open spec fn wf(&self) -> bool {
        &&& self.tri_geoms@ == self.tris@.map_values(|t: Triangle| geometry(t))
        &&& self.prev_dv@.len() == self.tris@.len() <= MAX_HULL_TRIANGLES
        &&& forall|i: int|
            0 <= i < self.prev_dv@.len() ==> #[trigger] self.prev_dv@[i] <= SWEEP_LIMIT
        &&& self.key is Some ==> self.total_area == area_sum(self.tri_geoms@)
        &&& self.key matches Some(key) ==> key.shape.valid() && key.describes(self.tris@)
        &&& forall|i: int|
            0 <= i < self.tris@.len() ==> (#[trigger] self.tris@[i]).within(SHAPE_LIMIT as int)
        &&& forall|i: int|
            0 <= i < self.tri_geoms@.len() ==> (#[trigger] self.tri_geoms@[i] matches Some(
                g,
            ) ==> g.normal.within(1_002_000) && g.centroid.within(SHAPE_LIMIT as int) && 500
                <= g.area < 0x4000_0000_0000_0000)
    }
}

/// Tessellates the hull anew when its shape or the resolution changed. `headings` are the
/// directions of that many segments around the axis. What the triangles swept before is
/// forgotten, since they are other triangles now.
pub fn refresh_hull_cache(params: &SimParams, headings: &[Heading], cache: &mut HullCache)
    requires
        params.valid(),
        headings_valid(headings@),
        headings.len() == params.segments(),
        old(cache).wf(),
    ensures
        final(cache).wf(),
        final(cache).key == Some(HullKey { shape: params.shape, res: params.hull_res }),
        old(cache).key == final(cache).key ==> *final(cache) == *old(cache),
        old(cache).key != final(cache).key ==> {
            &&& final(cache).tris@ == hull(params.shape, headings@, params.rings())
            &&& forall|i: int|
                0 <= i < final(cache).prev_dv@.len() ==> #[trigger] final(cache).prev_dv@[i] == 0
        },
{
    let key: HullKey = HullKey { shape: params.shape, res: params.hull_res };
    if let Some(built) = cache.key {
        if built == key {
            return;
        }
    }
    let tris: Vec<Triangle> = frustum_triangles(&params.shape, headings, params.hull_rings());
    proof {
        let (n, rings) = (headings.len() as int, params.rings());
        lemma_hull_size(params.shape, headings@, rings);
        assert(2 * n * rings + 2 * n <= 2 * 64 * 21 + 2 * 64) by (nonlinear_arith)
            requires
                0 <= n <= 64,
                0 <= rings <= 21,
        ;
    }
    let mut tri_geoms: Vec<Option<TriGeom>> = Vec::new();
    let mut prev_dv: Vec<u128> = Vec::new();
    let mut total_area: u128 = 0;
    let mut i: usize = 0;
    while i < tris.len()
        invariant
            i <= tris.len(),
            forall|m: int| 0 <= m < tris@.len() ==> (#[trigger] tris@[m]).within(SHAPE_LIMIT as int),
            tri_geoms@.len() == i,
            prev_dv@.len() == i,
            forall|m: int| 0 <= m < i ==> #[trigger] prev_dv@[m] == 0,
            forall|m: int| 0 <= m < i ==> #[trigger] tri_geoms@[m] == geometry(tris@[m]),
            forall|m: int|
                0 <= m < i ==> (#[trigger] tri_geoms@[m] matches Some(g) ==> g.normal.within(
                    1_002_000,
                ) && g.centroid.within(SHAPE_LIMIT as int) && 500 <= g.area < 0x4000_0000_0000_0000),
            total_area == area_sum(tri_geoms@),
            total_area <= i * 0x4000_0000_0000_0000,
        decreases tris.len() - i,
    {
        let tri: Triangle = tris[i];
        assert(tri.within(SHAPE_LIMIT as int));
        let g: Option<TriGeom> = tri_geom(&tri);
        let ghost before = tri_geoms@;
        if let Some(g) = g {
            total_area = total_area + g.area as u128;
        }
        tri_geoms.push(g);
        prev_dv.push(0);
        assert(tri_geoms@.drop_last() =~= before);
        i = i + 1;
    }
    assert(tri_geoms@ =~= tris@.map_values(|t: Triangle| geometry(t)));
    assert(tris@ == hull(key.shape, headings@, rings_at(key.res)));
    cache.tris = tris;
    cache.tri_geoms = tri_geoms;
    cache.total_area = total_area;
    cache.prev_dv = prev_dv;
    cache.key = Some(key);
}

} // verus!
