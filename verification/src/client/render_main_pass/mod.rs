//! How the world looks: parts, ground, rocks, flames, ash and air.

use vstd::prelude::*;
use crate::geom::{cross, Long, Point};
use crate::geom::{cross_x, cross_y, cross_z, scaled, DIRECTION_LIMIT, SIDE_LIMIT};

pub mod ash_material;
pub mod atmosphere;
pub mod flame_material;
pub mod grass_material;
pub mod magma_material;
pub mod metal_material;
pub mod rock;

verus! {

/// A triangle, by the numbers of its corners.
#[derive(Clone, Copy, Debug, PartialEq, Eq, Structural)]
pub struct Face {
    pub a: u32,
    pub b: u32,
    pub c: u32,
}

impl Face {
    /// Whether every corner is one of `n`.
    pub open spec fn valid(self, n: int) -> bool {
        self.a < n && self.b < n && self.c < n
    }

    /// How many of the corners are `v`.
    pub open spec fn uses(self, v: int) -> int {
        (if self.a == v {
            1int
        } else {
            0
        }) + (if self.b == v {
            1int
        } else {
            0
        }) + (if self.c == v {
            1int
        } else {
            0
        })
    }
}

/// A mesh of the ground.
pub struct GroundMesh {
    /// The unit normal of each corner, in millionths.
    pub normals: Vec<Point>,
    pub indices: Vec<u32>,
}

/// The sum of the normals of the faces around corner `v`, each as long as twice its area.
pub open spec fn normal_sum(verts: Seq<Point>, faces: Seq<Face>, v: int) -> (int, int, int)
    decreases faces.len(),
{
    if faces.len() == 0 {
        (0, 0, 0)
    } else {
        let (s, f) = (normal_sum(verts, faces.drop_last(), v), faces.last());
        let (a, b, c) = (verts[f.a as int], verts[f.b as int], verts[f.c as int]);
        (
            s.0 + f.uses(v) * cross_x(a, b, c),
            s.1 + f.uses(v) * cross_y(a, b, c),
            s.2 + f.uses(v) * cross_z(a, b, c),
        )
    }
}

/// The longest coordinate of a vector.
pub open spec fn reach_of(v: (int, int, int)) -> int {
    let x = if v.0 >= 0 { v.0 } else { -v.0 };
    let y = if v.1 >= 0 { v.1 } else { -v.1 };
    let z = if v.2 >= 0 { v.2 } else { -v.2 };
    let xy = if x >= y { x } else { y };
    if xy >= z {
        xy
    } else {
        z
    }
}

/// The unit vector along `v`: `v` is first brought down to a length that can be squared.
pub open spec fn unit_normal(v: (int, int, int)) -> Point {
    let d = reach_of(v) / DIRECTION_LIMIT as int + 1;
    Point {
        x: scaled(v.0, 1, d) as i64,
        y: scaled(v.1, 1, d) as i64,
        z: scaled(v.2, 1, d) as i64,
    }.unit()
}

/// The corner that index `k` names.
pub open spec fn flat_index(faces: Seq<Face>, k: int) -> u32 {
    let f = faces[k / 3];
    if k % 3 == 0 {
        f.a
    } else if k % 3 == 1 {
        f.b
    } else {
        f.c
    }
}

/// Adds `n` to the normal of corner `v`.
fn add_normal(normals: &mut Vec<Long>, v: usize, n: &Long)
    requires
        v < old(normals)@.len(),
        -0x800_0000_0000_0000_0000_0000_0000 <= old(normals)@[v as int].x
            <= 0x800_0000_0000_0000_0000_0000_0000,
        -0x800_0000_0000_0000_0000_0000_0000 <= old(normals)@[v as int].y
            <= 0x800_0000_0000_0000_0000_0000_0000,
        -0x800_0000_0000_0000_0000_0000_0000 <= old(normals)@[v as int].z
            <= 0x800_0000_0000_0000_0000_0000_0000,
        -0x8_0000_0000_0000_0000_0000 <= n.x <= 0x8_0000_0000_0000_0000_0000,
        -0x8_0000_0000_0000_0000_0000 <= n.y <= 0x8_0000_0000_0000_0000_0000,
        -0x8_0000_0000_0000_0000_0000 <= n.z <= 0x8_0000_0000_0000_0000_0000,
    ensures
        final(normals)@.len() == old(normals)@.len(),
        final(normals)@[v as int].x == old(normals)@[v as int].x + n.x,
        final(normals)@[v as int].y == old(normals)@[v as int].y + n.y,
        final(normals)@[v as int].z == old(normals)@[v as int].z + n.z,
        forall|k: int|
            0 <= k < old(normals)@.len() && k != v ==> #[trigger] final(normals)@[k] == old(
                normals,
            )@[k],
{
    let was: Long = normals[v];
    normals.set(v, Long { x: was.x + n.x, y: was.y + n.y, z: was.z + n.z });
}

/// Whether normals summed over `n` faces stay within their bounds.
pub open spec fn bounded(l: Long, n: int) -> bool {
    let limit = 3 * n * 0x8_0000_0000_0000_0000_0000;
    &&& -limit <= l.x <= limit
    &&& -limit <= l.y <= limit
    &&& -limit <= l.z <= limit
}

/// The size of a number.
fn size_of(v: i128) -> (m: i128)
    requires
        -0x1000_0000_0000_0000_0000_0000_0000 <= v <= 0x1000_0000_0000_0000_0000_0000_0000,
    ensures
        m == (if v >= 0 {
            v as int
        } else {
            -v
        }),
{
    if v >= 0 {
        v
    } else {
        -v
    }
}

/// One coordinate, brought down by `d`.
fn brought_down(v: i128, d: i128) -> (r: i64)
    requires
        -0x1000_0000_0000_0000_0000_0000_0000 <= v <= 0x1000_0000_0000_0000_0000_0000_0000,
        0 < d,
        -(d * 0x4000_0000) <= v <= d * 0x4000_0000,
    ensures
        r == scaled(v as int, 1, d as int),
        -DIRECTION_LIMIT <= r <= DIRECTION_LIMIT,
{
    let m: i128 = size_of(v);
    assert(0 <= m as int / d as int <= 0x4000_0000) by (nonlinear_arith)
        requires
            0 <= m <= d * 0x4000_0000,
            0 < d,
    ;
    let q: i64 = (m / d) as i64;
    if v >= 0 {
        q
    } else {
        -q
    }
}

/// The unit vector along a sum of normals; nothing for nothing.
pub fn unit_of_sum(n: &Long) -> (p: Point)
    requires
        bounded(*n, 0x10_0000),
    ensures
        p == unit_normal((n.x as int, n.y as int, n.z as int)),
        p.within(2_000_000),
{
    let (x, y, z): (i128, i128, i128) = (size_of(n.x), size_of(n.y), size_of(n.z));
    let xy: i128 = if x >= y {
        x
    } else {
        y
    };
    let reach: i128 = if xy >= z {
        xy
    } else {
        z
    };
    let d: i128 = reach / DIRECTION_LIMIT as i128 + 1;
    assert(reach <= d * 0x4000_0000);
    Point {
        x: brought_down(n.x, d),
        y: brought_down(n.y, d),
        z: brought_down(n.z, d),
    }.normalize_or_zero()
}

/// The mesh of the ground from its collider: the normal of a corner is the unit vector along
/// the sum of the normals of the faces around it, and the indices are the faces' corners in
/// order.
pub fn compute_mesh(verts: &[Point], faces: &[Face]) -> (mesh: GroundMesh)
    requires
        faces.len() <= 0x10_0000,
        forall|i: int| 0 <= i < verts.len() ==> (#[trigger] verts[i]).within(SIDE_LIMIT as int),
        forall|i: int| 0 <= i < faces.len() ==> (#[trigger] faces[i]).valid(verts.len() as int),
    ensures
        mesh.normals@.len() == verts.len(),
        forall|v: int|
            0 <= v < verts.len() ==> #[trigger] mesh.normals@[v] == unit_normal(
                normal_sum(verts@, faces@, v),
            ),
        mesh.indices@.len() == 3 * faces.len(),
        forall|k: int|
            0 <= k < mesh.indices@.len() ==> #[trigger] mesh.indices@[k] == flat_index(faces@, k),
{
    let mut normals: Vec<Long> = Vec::new();
    let mut v: usize = 0;
    assert(faces@.take(0) =~= Seq::<Face>::empty());
    while v < verts.len()
        invariant
            v <= verts.len(),
            normals@.len() == v,
            forall|k: int| 0 <= k < v ==> #[trigger] normals@[k] == (Long { x: 0, y: 0, z: 0 }),
        decreases verts.len() - v,
    {
        normals.push(Long { x: 0, y: 0, z: 0 });
        v = v + 1;
    }
    let mut indices: Vec<u32> = Vec::new();
    let mut i: usize = 0;
    while i < faces.len()
        invariant
            i <= faces.len() <= 0x10_0000,
            forall|i: int| 0 <= i < verts.len() ==> (#[trigger] verts[i]).within(SIDE_LIMIT as int),
            forall|i: int| 0 <= i < faces.len() ==> (#[trigger] faces[i]).valid(verts.len() as int),
            normals@.len() == verts.len(),
            forall|v: int|
                0 <= v < verts.len() ==> bounded(#[trigger] normals@[v], i as int) && (
                    normals@[v].x as int,
                    normals@[v].y as int,
                    normals@[v].z as int,
                ) == normal_sum(verts@, faces@.take(i as int), v),
            indices@.len() == 3 * i,
            forall|k: int|
                0 <= k < indices@.len() ==> #[trigger] indices@[k] == flat_index(faces@, k),
        decreases faces.len() - i,
    {
        let f: Face = faces[i];
        assert(faces[i as int].valid(verts.len() as int));
        assert(faces@.take(i + 1).drop_last() =~= faces@.take(i as int));
        let ghost before = normals@;
        let (a, b, c): (Point, Point, Point) = (
            verts[f.a as usize],
            verts[f.b as usize],
            verts[f.c as usize],
        );
        assert(verts[f.a as int].within(SIDE_LIMIT as int) && verts[f.b as int].within(
            SIDE_LIMIT as int,
        ) && verts[f.c as int].within(SIDE_LIMIT as int));
        let n: Long = cross(&a, &b, &c);
        assert(bounded(before[f.a as int], i as int) && bounded(before[f.b as int], i as int)
            && bounded(before[f.c as int], i as int));
        add_normal(&mut normals, f.a as usize, &n);
        add_normal(&mut normals, f.b as usize, &n);
        add_normal(&mut normals, f.c as usize, &n);
        assert forall|v: int| 0 <= v < verts.len() implies bounded(#[trigger] normals@[v], i + 1)
            && (normals@[v].x as int, normals@[v].y as int, normals@[v].z as int) == normal_sum(
            verts@,
            faces@.take(i + 1),
            v,
        ) by {
            assert(bounded(before[v], i as int));
            let u = f.uses(v);
            assert(normals@[v].x == before[v].x + u * n.x && normals@[v].y == before[v].y + u * n.y
                && normals@[v].z == before[v].z + u * n.z) by {
                assert(u == 0 || u == 1 || u == 2 || u == 3);
                assert(0 * n.x == 0 && 1 * n.x == n.x && 2 * n.x == n.x + n.x && 3 * n.x == n.x
                    + n.x + n.x);
                assert(0 * n.y == 0 && 1 * n.y == n.y && 2 * n.y == n.y + n.y && 3 * n.y == n.y
                    + n.y + n.y);
                assert(0 * n.z == 0 && 1 * n.z == n.z && 2 * n.z == n.z + n.z && 3 * n.z == n.z
                    + n.z + n.z);
            }
        }
        indices.push(f.a);
        indices.push(f.b);
        indices.push(f.c);
        i = i + 1;
    }
    assert(faces@.take(faces.len() as int) =~= faces@);
    let mut units: Vec<Point> = Vec::new();
    let mut w: usize = 0;
    while w < normals.len()
        invariant
            w <= normals@.len(),
            faces.len() <= 0x10_0000,
            forall|v: int| 0 <= v < normals@.len() ==> bounded(#[trigger] normals@[v], faces.len() as int),
            units@.len() == w,
            forall|v: int|
                0 <= v < w ==> #[trigger] units@[v] == unit_normal(
                    (normals@[v].x as int, normals@[v].y as int, normals@[v].z as int),
                ),
        decreases normals@.len() - w,
    {
        assert(bounded(normals@[w as int], faces.len() as int));
        units.push(unit_of_sum(&normals[w]));
        w = w + 1;
    }
    assert forall|v: int| 0 <= v < verts.len() implies #[trigger] units@[v] == unit_normal(
        normal_sum(verts@, faces@, v),
    ) by {
        assert(bounded(normals@[v], faces.len() as int));
    }
    GroundMesh { normals: units, indices }
}

/// The texture coordinates of a corner of the ground: the platform's width is one, and its
/// middle one half. In millionths.
pub fn ground_uv(x: i64, z: i64, width: i64) -> (uv: (i64, i64))
    requires
        -SIDE_LIMIT <= x <= SIDE_LIMIT,
        -SIDE_LIMIT <= z <= SIDE_LIMIT,
        0 < width,
    ensures
        uv.0 == (x * 1_000_000) / width as int + 500_000,
        uv.1 == (z * 1_000_000) / width as int + 500_000,
{
    let u: i128 = crate::geom::floor_div(x as i128 * 1_000_000, width as i128);
    let v: i128 = crate::geom::floor_div(z as i128 * 1_000_000, width as i128);
    (u as i64 + 500_000, v as i64 + 500_000)
}

/// A face uses its own corners, as often as it names them, and no others.
pub proof fn law_a_face_uses_its_corners(f: Face, v: int)
    ensures
        f.uses(f.a as int) >= 1,
        f.uses(f.b as int) >= 1,
        f.uses(f.c as int) >= 1,
        v != f.a && v != f.b && v != f.c ==> f.uses(v) == 0,
        f.a != f.b && f.b != f.c && f.a != f.c && v == f.a ==> f.uses(v) == 1,
{
}

/// One more face adds its normal to each of its own corners, axis by axis, and to no other.
pub proof fn law_faces_add_their_normals(verts: Seq<Point>, faces: Seq<Face>, f: Face, v: int)
    ensures
        ({
            let (before, after) = (
                normal_sum(verts, faces, v),
                normal_sum(verts, faces.push(f), v),
            );
            let (a, b, c) = (verts[f.a as int], verts[f.b as int], verts[f.c as int]);
            &&& f.uses(v) == 1 ==> after.0 - before.0 == cross_x(a, b, c) && after.1 - before.1
                == cross_y(a, b, c) && after.2 - before.2 == cross_z(a, b, c)
            &&& f.uses(v) == 0 ==> after == before
        }),
        normal_sum(verts, Seq::empty(), v) == (0int, 0int, 0int),
{
    assert(faces.push(f).drop_last() == faces);
    let (a, b, c) = (verts[f.a as int], verts[f.b as int], verts[f.c as int]);
    let (x, y, z) = (cross_x(a, b, c), cross_y(a, b, c), cross_z(a, b, c));
    let n = f.uses(v);
    assert(n == 1 ==> n * x == x && n * y == y && n * z == z) by (nonlinear_arith);
    assert(n == 0 ==> n * x == 0 && n * y == 0 && n * z == 0) by (nonlinear_arith);
}

/// A sum of normals becomes the unit vector of the sum, brought down evenly so that it can be
/// squared: a sum that is small enough is left as it is.
pub proof fn law_a_normal_keeps_its_direction(v: (int, int, int))
    ensures
        exists|p: Point, d: int|
            {
                &&& unit_normal(v) == #[trigger] p.unit()
                &&& #[trigger] evenly(d)
                &&& v.0 >= 0 ==> d * p.x <= v.0 < d * p.x + d
                &&& v.0 <= 0 ==> d * p.x - d < v.0 <= d * p.x
                &&& v.1 >= 0 ==> d * p.y <= v.1 < d * p.y + d
                &&& v.1 <= 0 ==> d * p.y - d < v.1 <= d * p.y
                &&& v.2 >= 0 ==> d * p.z <= v.2 < d * p.z + d
                &&& v.2 <= 0 ==> d * p.z - d < v.2 <= d * p.z
                &&& -0x3fff_ffff <= v.0 <= 0x3fff_ffff && -0x3fff_ffff <= v.1 <= 0x3fff_ffff
                    && -0x3fff_ffff <= v.2 <= 0x3fff_ffff ==> d == 1
            },
{
    let reach = reach_of(v);
    let d = reach / DIRECTION_LIMIT as int + 1;
    assert(reach < d * 0x4000_0000);
    let p = Point {
        x: scaled(v.0, 1, d) as i64,
        y: scaled(v.1, 1, d) as i64,
        z: scaled(v.2, 1, d) as i64,
    };
    lemma_brought(v.0, d);
    lemma_brought(v.1, d);
    lemma_brought(v.2, d);
    assert(unit_normal(v) == p.unit());
    assert(evenly(d));
}

/// Whether a sum may be brought down by `d`.
pub open spec fn evenly(d: int) -> bool {
    1 <= d
}

proof fn lemma_brought(v: int, d: int)
    requires
        1 <= d,
        -d * 0x4000_0000 < v < d * 0x4000_0000,
    ensures
        -0x4000_0000 <= scaled(v, 1, d) <= 0x4000_0000,
        v >= 0 ==> d * scaled(v, 1, d) <= v < d * scaled(v, 1, d) + d,
        v <= 0 ==> d * scaled(v, 1, d) - d < v <= d * scaled(v, 1, d),
{
    crate::geom::law_scaling_rounds_towards_zero(v, 1, d);
    let s = scaled(v, 1, d);
    assert(v * 1 == v);
    assert(s <= 0x4000_0000) by (nonlinear_arith)
        requires
            v >= 0 ==> d * s <= v,
            v <= 0 ==> s <= 0,
            v < d * 0x4000_0000,
            d >= 1,
    ;
    assert(s >= -0x4000_0000) by (nonlinear_arith)
        requires
            v <= 0 ==> v <= d * s,
            v >= 0 ==> s >= 0,
            v > -d * 0x4000_0000,
            d >= 1,
    ;
}

/// The indices of a face are its three corners, in their order.
pub proof fn law_indices_name_the_corners(faces: Seq<Face>, i: int)
    requires
        0 <= i < faces.len(),
    ensures
        flat_index(faces, 3 * i) == faces[i].a,
        flat_index(faces, 3 * i + 1) == faces[i].b,
        flat_index(faces, 3 * i + 2) == faces[i].c,
{
    assert((3 * i) / 3 == i && (3 * i) % 3 == 0);
    assert((3 * i + 1) / 3 == i && (3 * i + 1) % 3 == 1);
    assert((3 * i + 2) / 3 == i && (3 * i + 2) % 3 == 2);
}

} // verus!
