//! The little planet under the platform, the cliffs down to it, and the ring around it
//! after liftoff.

use vstd::prelude::*;
use super::outline::{toggle_outline_pass, PassChange};
use super::outline::pass_change;
use crate::geom::{cross, Long, Point};
use crate::geom::{cross_x, cross_z};

verus! {

/// The height of the platform's lip.
pub const TOP_Y: i64 = 1_500_000;

/// How finely the planet is divided: coarsely, so that its facets show.
pub const PLANET_SUBDIVISIONS: u32 = 24;

/// How far the platform and the planet reach, at most (2^39 um).
pub const CLIFF_LIMIT: i64 = 0x80_0000_0000;

/// A horizontal direction along an axis.
#[derive(Clone, Copy, Debug, PartialEq, Eq, Structural)]
pub struct Outward {
    pub x: i64,
    pub z: i64,
}

/// The cliffs: three corners for each triangle, and the direction that each faces.
pub struct CliffMesh {
    pub positions: Vec<Point>,
    pub normals: Vec<Outward>,
}

/// Corner `i` of the platform, counter-clockwise seen from above, at height `y`.
pub open spec fn platform_corner(hw: int, i: int, y: int) -> Point {
    let k = i % 4;
    Point {
        x: (if k == 1 || k == 2 {
            hw
        } else {
            -hw
        }) as i64,
        y: y as i64,
        z: (if k == 2 || k == 3 {
            hw
        } else {
            -hw
        }) as i64,
    }
}

/// The direction that wall `i` faces: away from the middle.
pub open spec fn wall_outward(i: int) -> Outward {
    if i == 0 {
        Outward { x: 0, z: (-1) as i64 }
    } else if i == 1 {
        Outward { x: 1, z: 0 }
    } else if i == 2 {
        Outward { x: 0, z: 1 }
    } else {
        Outward { x: (-1) as i64, z: 0 }
    }
}

/// How much the triangle `a`, `b`, `c` faces `out`.
pub open spec fn faces(a: Point, b: Point, c: Point, out: Outward) -> int {
    cross_x(a, b, c) * out.x + cross_z(a, b, c) * out.z
}

/// The corners of a triangle in the order in which it faces `out`.
pub open spec fn wound(a: Point, b: Point, c: Point, out: Outward) -> Seq<Point> {
    if faces(a, b, c, out) >= 0 {
        seq![a, b, c]
    } else {
        seq![a, c, b]
    }
}

/// Wall `i` from the lip down to `bottom`: two triangles.
pub open spec fn wall_positions(hw: int, bottom: int, i: int) -> Seq<Point> {
    let out = wall_outward(i);
    let (tl, tr) = (
        platform_corner(hw, i, TOP_Y as int),
        platform_corner(hw, i + 1, TOP_Y as int),
    );
    let (bl, br) = (platform_corner(hw, i, bottom), platform_corner(hw, i + 1, bottom));
    wound(tl, bl, tr, out) + wound(tr, bl, br, out)
}

/// The first `n` walls.
pub open spec fn cliff_positions(hw: int, bottom: int, n: int) -> Seq<Point>
    decreases n,
{
    if n <= 0 {
        Seq::empty()
    } else {
        cliff_positions(hw, bottom, n - 1) + wall_positions(hw, bottom, n - 1)
    }
}

fn corner_of(hw: i64, i: usize, y: i64) -> (p: Point)
    requires
        0 <= hw <= CLIFF_LIMIT,
        -CLIFF_LIMIT <= y <= CLIFF_LIMIT,
    ensures
        p == platform_corner(hw as int, i as int, y as int),
        p.within(CLIFF_LIMIT as int),
{
    let k: usize = i % 4;
    Point {
        x: if k == 1 || k == 2 {
            hw
        } else {
            -hw
        },
        y,
        z: if k == 2 || k == 3 {
            hw
        } else {
            -hw
        },
    }
}

fn outward_of(i: usize) -> (out: Outward)
    requires
        i < 4,
    ensures
        out == wall_outward(i as int),
        -1 <= out.x <= 1,
        -1 <= out.z <= 1,
{
    if i == 0 {
        Outward { x: 0, z: -1 }
    } else if i == 1 {
        Outward { x: 1, z: 0 }
    } else if i == 2 {
        Outward { x: 0, z: 1 }
    } else {
        Outward { x: -1, z: 0 }
    }
}

/// Adds a triangle, wound so that it faces `out`.
fn push_wound(
    mesh: &mut CliffMesh,
    a: &Point,
    b: &Point,
    c: &Point,
    out: &Outward,
)
    requires
        a.within(CLIFF_LIMIT as int),
        b.within(CLIFF_LIMIT as int),
        c.within(CLIFF_LIMIT as int),
        -1 <= out.x <= 1,
        -1 <= out.z <= 1,
    ensures
        final(mesh).positions@ == old(mesh).positions@ + wound(*a, *b, *c, *out),
        final(mesh).normals@ == old(mesh).normals@ + seq![*out, *out, *out],
{
    let n: Long = cross(a, b, c);
    proof {
        crate::geom::lemma_product_bound(n.x as int, out.x as int, 0x8_0000_0000_0000_0000_0000, 1);
        crate::geom::lemma_product_bound(n.z as int, out.z as int, 0x8_0000_0000_0000_0000_0000, 1);
    }
    let facing: i128 = n.x * out.x as i128 + n.z * out.z as i128;
    mesh.positions.push(*a);
    if facing >= 0 {
        mesh.positions.push(*b);
        mesh.positions.push(*c);
    } else {
        mesh.positions.push(*c);
        mesh.positions.push(*b);
    }
    mesh.normals.push(*out);
    mesh.normals.push(*out);
    mesh.normals.push(*out);
    assert(mesh.positions@ =~= old(mesh).positions@ + wound(*a, *b, *c, *out));
    assert(mesh.normals@ =~= old(mesh).normals@ + seq![*out, *out, *out]);
}

/// The cliffs: the four walls of the square platform, from its lip down to the planet at
/// `bottom`. `hw` is half the platform's width. Every wall is wound to face outwards.
pub fn cliff_mesh(hw: i64, bottom: i64) -> (mesh: CliffMesh)
    requires
        0 <= hw <= CLIFF_LIMIT,
        -CLIFF_LIMIT <= bottom <= CLIFF_LIMIT,
    ensures
        mesh.positions@ == cliff_positions(hw as int, bottom as int, 4),
        mesh.positions@.len() == 24,
        mesh.normals@.len() == 24,
        forall|k: int| 0 <= k < 24 ==> #[trigger] mesh.normals@[k] == wall_outward(k / 6),
{
    let mut mesh: CliffMesh = CliffMesh { positions: Vec::new(), normals: Vec::new() };
    let mut i: usize = 0;
    while i < 4
        invariant
            0 <= hw <= CLIFF_LIMIT,
            -CLIFF_LIMIT <= bottom <= CLIFF_LIMIT,
            i <= 4,
            mesh.positions@ == cliff_positions(hw as int, bottom as int, i as int),
            mesh.positions@.len() == 6 * i,
            mesh.normals@.len() == 6 * i,
            forall|k: int| 0 <= k < 6 * i ==> #[trigger] mesh.normals@[k] == wall_outward(k / 6),
        decreases 4 - i,
    {
        let ghost before = mesh.positions@;
        let out: Outward = outward_of(i);
        let tl: Point = corner_of(hw, i, TOP_Y);
        let tr: Point = corner_of(hw, i + 1, TOP_Y);
        let bl: Point = corner_of(hw, i, bottom);
        let br: Point = corner_of(hw, i + 1, bottom);
        push_wound(&mut mesh, &tl, &bl, &tr, &out);
        push_wound(&mut mesh, &tr, &bl, &br, &out);
        assert(mesh.positions@ =~= before + wall_positions(hw as int, bottom as int, i as int));
        i = i + 1;
    }
    mesh
}

/// Every triangle of the cliffs faces outwards.
pub proof fn law_cliffs_face_outwards(a: Point, b: Point, c: Point, out: Outward)
    ensures
        ({
            let w = wound(a, b, c, out);
            faces(w[0], w[1], w[2], out) >= 0
        }),
{
    assert(cross_x(a, c, b) == -cross_x(a, b, c)) by (nonlinear_arith);
    assert(cross_z(a, c, b) == -cross_z(a, b, c)) by (nonlinear_arith);
    let (x, z) = (cross_x(a, b, c), cross_z(a, b, c));
    assert((-x) * out.x + (-z) * out.z == -(x * out.x + z * out.z)) by (nonlinear_arith);
}

/// The direction of a wall points away from the middle of the platform.
pub proof fn law_walls_stand_around_the_middle(hw: int, i: int, y: int)
    requires
        0 < hw <= CLIFF_LIMIT,
        0 <= i < 4,
    ensures
        ({
            let (c, out) = (platform_corner(hw, i, y), wall_outward(i));
            c.x * out.x + c.z * out.z == hw
        }),
{
    let (c, out) = (platform_corner(hw, i, y), wall_outward(i));
    assert(hw * 1 == hw && (-hw) * (-1) == hw);
    if i == 0 {
        assert(c.x * 0 == 0 && c.z * (-1) == hw);
    } else if i == 1 {
        assert(c.x * 1 == hw && c.z * 0 == 0);
    } else if i == 2 {
        assert(c.x * 0 == 0 && c.z * 1 == hw);
    } else {
        assert(c.x * (-1) == hw && c.z * 0 == 0);
    }
}

/// Whether to spawn the planet now: once there is exactly one ground that has none yet.
pub fn spawn_planet(grounds_without_planet: usize) -> (spawn: bool)
    ensures
        spawn == (grounds_without_planet == 1),
{
    grounds_without_planet == 1
}

/// Whether the room has lifted off: by the server's word where there is a server, and none
/// of it is no liftoff.
pub open spec fn lifted_off(multiplayer: bool, server: Option<bool>, local: bool) -> bool {
    if multiplayer {
        server == Some(true)
    } else {
        local
    }
}

/// Rings each planet after liftoff, and takes the ring away on a reset.
pub fn toggle_planet_outline(
    multiplayer: bool,
    server: Option<bool>,
    local: bool,
    planets: &[bool],
) -> (changes: Vec<PassChange>)
    ensures
        changes@ == planets@.map_values(
            |ringed: bool| pass_change(lifted_off(multiplayer, server, local), ringed),
        ),
{
    let launched: bool = if multiplayer {
        match server {
            Some(l) => l,
            None => false,
        }
    } else {
        local
    };
    let want: usize = if launched {
        1
    } else {
        0
    };
    let changes: Vec<PassChange> = toggle_outline_pass(want, planets);
    assert(changes@ =~= planets@.map_values(
        |ringed: bool| pass_change(lifted_off(multiplayer, server, local), ringed),
    ));
    changes
}

/// The four corners stand around the platform, each next to the next: one step along a wall
/// changes one coordinate, by the platform's whole width, and the height stays.
pub proof fn law_corners_run_around_the_platform(hw: int, i: int, y: int)
    requires
        0 < hw <= CLIFF_LIMIT,
        0 <= i < 4,
        -CLIFF_LIMIT <= y <= CLIFF_LIMIT,
    ensures
        ({
            let (a, b) = (platform_corner(hw, i, y), platform_corner(hw, i + 1, y));
            let out = wall_outward(i);
            &&& a.y == y && b.y == y
            &&& a.x == hw || a.x == -hw
            &&& a.z == hw || a.z == -hw
            &&& out.x * out.x + out.z * out.z == 1
            &&& out.x * a.x + out.z * a.z == hw
            &&& out.x * b.x + out.z * b.z == hw
            &&& (b.x - a.x) * out.x + (b.z - a.z) * out.z == 0
            &&& (b.x - a.x) + (b.z - a.z) == 2 * hw || (b.x - a.x) + (b.z - a.z) == -2 * hw
        }),
        platform_corner(hw, 0, y) == platform_corner(hw, 4, y),
{
    let (a, b) = (platform_corner(hw, i, y), platform_corner(hw, i + 1, y));
    let out = wall_outward(i);
    lemma_unit_product(out.x as int, a.x as int);
    lemma_unit_product(out.z as int, a.z as int);
    lemma_unit_product(out.x as int, b.x as int);
    lemma_unit_product(out.z as int, b.z as int);
    lemma_unit_product(out.x as int, b.x - a.x);
    lemma_unit_product(out.z as int, b.z - a.z);
    lemma_unit_product(out.x as int, out.x as int);
    lemma_unit_product(out.z as int, out.z as int);
}

proof fn lemma_unit_product(k: int, v: int)
    ensures
        k * v == v * k,
        k == 0 ==> k * v == 0,
        k == 1 ==> k * v == v,
        k == -1 ==> k * v == -v,
{
    assert(k * v == v * k) by (nonlinear_arith);
    assert(k == 0 ==> k * v == 0) by (nonlinear_arith);
    assert(k == 1 ==> k * v == v) by (nonlinear_arith);
    assert(k == -1 ==> k * v == -v) by (nonlinear_arith);
}

/// A wall reaches from the lip of the platform down to the planet, corner by corner: its two
/// triangles cover it between its two corners, and both have it at the lip and at the bottom.
pub proof fn law_a_wall_reaches_the_ground(hw: int, bottom: int, i: int)
    requires
        0 < hw <= CLIFF_LIMIT,
        -CLIFF_LIMIT <= bottom <= CLIFF_LIMIT,
        0 <= i < 4,
    ensures
        ({
            let w = wall_positions(hw, bottom, i);
            let (a, b) = (platform_corner(hw, i, 0), platform_corner(hw, i + 1, 0));
            let tl = Point { y: 1_500_000, ..a };
            let tr = Point { y: 1_500_000, ..b };
            let bl = Point { y: bottom as i64, ..a };
            let br = Point { y: bottom as i64, ..b };
            &&& w.len() == 6
            &&& w[0] == tl
            &&& (w[1] == bl && w[2] == tr) || (w[1] == tr && w[2] == bl)
            &&& w[3] == tr
            &&& (w[4] == bl && w[5] == br) || (w[4] == br && w[5] == bl)
        }),
{
}

/// Where a wall stands below the lip, its triangles show their faces to the outside.
pub proof fn law_walls_show_their_faces(a: Point, b: Point, c: Point, out: Outward)
    ensures
        ({
            let w = wound(a, b, c, out);
            &&& w.len() == 3
            &&& w[0] == a
            &&& (w[1] == b && w[2] == c) || (w[1] == c && w[2] == b)
            &&& crate::geom::cross_x(w[0], w[1], w[2]) * out.x + crate::geom::cross_z(
                w[0],
                w[1],
                w[2],
            ) * out.z >= 0
        }),
{
    crate::geom::law_a_normal_stands_on_its_triangle(a, b, c);
    let (x, z) = (cross_x(a, b, c), cross_z(a, b, c));
    let (p, q) = (out.x as int, out.z as int);
    assert((-x) * p == -(x * p) && (-z) * q == -(z * q)) by (nonlinear_arith);
}

/// Liftoff is the server's word in a room, and our own alone.
pub proof fn law_liftoff_is_told_by_the_server(server: Option<bool>, local: bool)
    ensures
        lifted_off(true, Some(true), local),
        !lifted_off(true, Some(false), local),
        !lifted_off(true, None, local),
        lifted_off(false, server, true),
        !lifted_off(false, server, false),
{
}

} // verus!
