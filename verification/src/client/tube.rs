//! The skin of the trajectory's tube: the corners of its rings.
//!
//! Each ring stands square to the path. Its first corner is the one of the ring before it,
//! brought into the new plane, so that the tube does not twist on its way.

use super::chase::{along, along_of, is_direction, mix, mix_of, square_to, square_to_of};
use super::chase::{unit_of_or, unit_or};
use super::trajectory::{lemma_stitch_at, rings_valid, stitch};
use super::trajectory::{TubeMesh, TubeRing, MAX_RINGS, MIN_RADIUS, RADIUS_LIMIT, TUBE_SIDES};
use crate::buoyancy::hydro::Heading;
use crate::geom::{floor_div, lemma_product_bound, Point};
use vstd::prelude::*;

verus! {

/// One corner of a ring.
#[derive(Clone, Copy, Debug, PartialEq, Eq, Structural)]
pub struct Corner {
    pub position: Point,
    /// The way out of the tube, in millionths.
    pub normal: Point,
    /// Strength of the line here, out of the opaque one.
    pub alpha: u32,
}

/// The way up, taken where the path has no direction.
pub open spec fn upward() -> Point {
    Point { x: 0, y: 1_000_000, z: 0 }
}

/// The unit vector from `from` to `to`, or `other` where they are one point.
pub open spec fn way(from: Point, to: Point, other: Point) -> Point {
    let step = to.seen_from(from);
    if step.len2() == 0 {
        other
    } else {
        step.direction()
    }
}

/// The direction of the path at ring `i`: from the ring before it to the ring behind it.
pub open spec fn tangent(rings: Seq<TubeRing>, i: int) -> Point {
    let before = if i == 0 { 0 } else { i - 1 };
    let after = if i == rings.len() - 1 { i } else { i + 1 };
    way(
        rings[before].centre,
        rings[after].centre,
        way(rings[0].centre, rings[1].centre, upward()),
    )
}

/// What is left of `side` square to `tangent`, as a unit vector; `across` where nothing is.
pub open spec fn transported(side: Point, tangent: Point, across: Point) -> Point {
    unit_or(mix(side, 1_000_000, tangent, -along(side, tangent), side, 0), across)
}

/// The way from the centre of ring `i` to its first corner. `across` holds a vector square
/// to each tangent.
pub open spec fn side_at(tangents: Seq<Point>, across: Seq<Point>, i: int) -> Point
    decreases i,
{
    if i <= 0 {
        transported(across[0], tangents[0], across[0])
    } else {
        transported(side_at(tangents, across, i - 1), tangents[i], across[i])
    }
}

/// One coordinate of a corner.
pub open spec fn out_from(centre: i64, normal: i64, radius: int) -> int {
    centre + (normal * radius) / 1_000_000
}

/// The corner of a ring at this angle round the path.
pub open spec fn corner_at(ring: TubeRing, tangent: Point, side: Point, angle: Heading) -> Corner {
    let normal = mix(
        side,
        angle.cos as int,
        square_to(tangent, side),
        angle.sin as int,
        side,
        0,
    );
    Corner {
        position: Point {
            x: out_from(ring.centre.x, normal.x, ring.radius as int) as i64,
            y: out_from(ring.centre.y, normal.y, ring.radius as int) as i64,
            z: out_from(ring.centre.z, normal.z, ring.radius as int) as i64,
        },
        normal,
        alpha: ring.alpha,
    }
}

/// The corners of all rings, ring by ring.
pub open spec fn skin(
    rings: Seq<TubeRing>,
    tangents: Seq<Point>,
    across: Seq<Point>,
    around: Seq<Heading>,
) -> Seq<Corner> {
    Seq::new(
        rings.len() * TUBE_SIDES as nat,
        |k: int|
            corner_at(
                rings[k / TUBE_SIDES as int],
                tangents[k / TUBE_SIDES as int],
                side_at(tangents, across, k / TUBE_SIDES as int),
                around[k % TUBE_SIDES as int],
            ),
    )
}

/// Whether every vector is a direction.
pub open spec fn all_directions(vectors: Seq<Point>) -> bool {
    forall|i: int| 0 <= i < vectors.len() ==> is_direction(#[trigger] vectors[i])
}

/// The unit vector from `from` to `to`.
fn way_of(from: &Point, to: &Point, other: &Point) -> (p: Point)
    requires
        from.is_local(),
        to.is_local(),
        is_direction(*other),
    ensures
        p == way(*from, *to, *other),
        is_direction(p),
{
    let step: Point = Point { x: to.x - from.x, y: to.y - from.y, z: to.z - from.z };
    if step.span_squared() == 0 {
        *other
    } else {
        step.direction_or_zero()
    }
}

/// The direction of the path at each ring.
pub fn tube_tangents(mesh: &TubeMesh) -> (tangents: Vec<Point>)
    requires
        mesh.valid(),
    ensures
        tangents@ == Seq::new(mesh.rings@.len(), |i: int| tangent(mesh.rings@, i)),
        all_directions(tangents@),
{
    let n: usize = mesh.rings.len();
    let up: Point = Point { x: 0, y: 1_000_000, z: 0 };
    assert(rings_valid(mesh.rings@));
    let first: Point = way_of(&mesh.rings[0].centre, &mesh.rings[1].centre, &up);
    let mut tangents: Vec<Point> = Vec::new();
    let mut i: usize = 0;
    while i < n
        invariant
            mesh.valid(),
            n == mesh.rings@.len(),
            i <= n,
            tangents.len() == i,
            is_direction(first),
            first == way(mesh.rings@[0].centre, mesh.rings@[1].centre, upward()),
            forall|k: int| 0 <= k < i ==> #[trigger] tangents@[k] == tangent(mesh.rings@, k),
            all_directions(tangents@),
        decreases n - i,
    {
        let before: usize = if i == 0 { 0 } else { i - 1 };
        let after: usize = if i == n - 1 { i } else { i + 1 };
        assert(mesh.rings@[before as int].valid() && mesh.rings@[after as int].valid());
        tangents.push(way_of(&mesh.rings[before].centre, &mesh.rings[after].centre, &first));
        i = i + 1;
    }
    tangents
}

/// What is left of `side` square to `tangent`.
fn transport(side: &Point, tangent: &Point, across: &Point) -> (p: Point)
    requires
        is_direction(*side),
        is_direction(*tangent),
        is_direction(*across),
    ensures
        p == transported(*side, *tangent, *across),
        is_direction(p),
{
    let d: i64 = along_of(side, tangent);
    let rest: Point = mix_of(side, 1_000_000, tangent, -d, side, 0);
    unit_of_or(&rest, across)
}

/// One coordinate of a corner.
fn out_of(centre: i64, normal: i64, radius: u64) -> (c: i64)
    requires
        -0x1000_0000_0000_0000 <= centre <= 0x1000_0000_0000_0000,
        -1_000_000_000 <= normal <= 1_000_000_000,
        radius <= RADIUS_LIMIT,
    ensures
        c == out_from(centre, normal, radius as int),
{
    proof {
        lemma_product_bound(normal as int, radius as int, 1_000_000_000, 0x10_0000_0000_0000);
    }
    (centre as i128 + floor_div(normal as i128 * radius as i128, 1_000_000)) as i64
}

/// The corner of a ring at this angle.
fn corner_of(ring: &TubeRing, tangent: &Point, side: &Point, angle: &Heading) -> (c: Corner)
    requires
        ring.valid(),
        is_direction(*tangent),
        is_direction(*side),
        angle.valid(),
    ensures
        c == corner_at(*ring, *tangent, *side, *angle),
{
    let up: Point = square_to_of(tangent, side);
    let normal: Point = mix_of(side, angle.cos, &up, angle.sin, side, 0);
    Corner {
        position: Point {
            x: out_of(ring.centre.x, normal.x, ring.radius),
            y: out_of(ring.centre.y, normal.y, ring.radius),
            z: out_of(ring.centre.z, normal.z, ring.radius),
        },
        normal,
        alpha: ring.alpha,
    }
}

/// The corners of the tube. `across` holds a vector square to each tangent, and `around`
/// the angles of the corners round the path.
pub fn tube_skin(
    mesh: &TubeMesh,
    tangents: &[Point],
    across: &[Point],
    around: &[Heading],
) -> (corners: Vec<Corner>)
    requires
        mesh.valid(),
        tangents.len() == mesh.rings.len(),
        across.len() == mesh.rings.len(),
        around.len() == TUBE_SIDES,
        all_directions(tangents@),
        all_directions(across@),
        forall|s: int| 0 <= s < around.len() ==> (#[trigger] around@[s]).valid(),
    ensures
        corners@ == skin(mesh.rings@, tangents@, across@, around@),
{
    let n: usize = mesh.rings.len();
    let mut corners: Vec<Corner> = Vec::new();
    let mut side: Point = across[0];
    let mut i: usize = 0;
    while i < n
        invariant
            mesh.valid(),
            n == mesh.rings@.len() == tangents.len() == across.len(),
            around.len() == TUBE_SIDES,
            all_directions(tangents@),
            all_directions(across@),
            forall|s: int| 0 <= s < around.len() ==> (#[trigger] around@[s]).valid(),
            i <= n,
            is_direction(side),
            side == (if i == 0 {
                across@[0]
            } else {
                side_at(tangents@, across@, i - 1)
            }),
            corners@ == skin(mesh.rings@.take(i as int), tangents@, across@, around@),
        decreases n - i,
    {
        side = transport(&side, &tangents[i], &across[i]);
        assert(side == side_at(tangents@, across@, i as int));
        let ghost before = corners@;
        let mut s: usize = 0;
        while s < 5
            invariant
                mesh.valid(),
                n == mesh.rings@.len() == tangents.len() == across.len(),
                around.len() == TUBE_SIDES,
                all_directions(tangents@),
                forall|s: int| 0 <= s < around.len() ==> (#[trigger] around@[s]).valid(),
                i < n,
                s <= 5,
                is_direction(side),
                side == side_at(tangents@, across@, i as int),
                before.len() == i * 5,
                corners@.len() == before.len() + s,
                forall|k: int| 0 <= k < before.len() ==> #[trigger] corners@[k] == before[k],
                forall|k: int|
                    before.len() <= k < corners@.len() ==> #[trigger] corners@[k] == corner_at(
                        mesh.rings@[i as int],
                        tangents@[i as int],
                        side,
                        around@[k - i * 5],
                    ),
            decreases 5 - s,
        {
            assert(mesh.rings@[i as int].valid());
            corners.push(corner_of(&mesh.rings[i], &tangents[i], &side, &around[s]));
            s = s + 1;
        }
        proof {
            let next = skin(mesh.rings@.take(i + 1), tangents@, across@, around@);
            assert forall|k: int| 0 <= k < next.len() implies #[trigger] next[k] == corners@[k] by {
                if k < i * 5 {
                    assert(k / 5 < i);
                    assert(before[k] == corners@[k]);
                } else {
                    assert(k / 5 == i && k % 5 == k - i * 5);
                }
            }
            assert(corners@ =~= next);
        }
        i = i + 1;
    }
    assert(mesh.rings@.take(n as int) =~= mesh.rings@);
    corners
}

// ---- Which way the skin faces --------------------------------------------------------

/// The vector from `p` to `q`.
pub open spec fn step(p: Point, q: Point) -> (int, int, int) {
    (q.x - p.x, q.y - p.y, q.z - p.z)
}

/// The product of three vectors: positive where the third lies on the side of the first two
/// from which the second runs counter-clockwise from the first.
pub open spec fn triple(u: (int, int, int), v: (int, int, int), w: (int, int, int)) -> int {
    (u.1 * v.2 - u.2 * v.1) * w.0 + (u.2 * v.0 - u.0 * v.2) * w.1 + (u.0 * v.1 - u.1 * v.0) * w.2
}

pub open spec fn plus(u: (int, int, int), v: (int, int, int)) -> (int, int, int) {
    (u.0 + v.0, u.1 + v.1, u.2 + v.2)
}

pub open spec fn times(k: int, u: (int, int, int)) -> (int, int, int) {
    (k * u.0, k * u.1, k * u.2)
}

/// Whether no coordinate is longer than `limit`.
pub open spec fn short(u: (int, int, int), limit: int) -> bool {
    &&& -limit <= u.0 <= limit
    &&& -limit <= u.1 <= limit
    &&& -limit <= u.2 <= limit
}

pub open spec fn vector_of(p: Point) -> (int, int, int) {
    (p.x as int, p.y as int, p.z as int)
}

/// How much a triangle faces the way of its corners' normals: the side from which the corners
/// run counter-clockwise, along the sum of the normals.
#[verifier::opaque]
pub open spec fn facing(a: Corner, b: Corner, c: Corner) -> int {
    triple(
        step(a.position, b.position),
        step(a.position, c.position),
        plus(plus(vector_of(a.normal), vector_of(b.normal)), vector_of(c.normal)),
    )
}

proof fn lemma_triple_bound(
    u: (int, int, int),
    v: (int, int, int),
    w: (int, int, int),
    a: int,
    b: int,
    c: int,
)
    requires
        short(u, a),
        short(v, b),
        short(w, c),
        0 <= a,
        0 <= b,
        0 <= c,
    ensures
        -(6 * (a * b * c)) <= triple(u, v, w) <= 6 * (a * b * c),
{
    lemma_product_bound(u.1, v.2, a, b);
    lemma_product_bound(u.2, v.1, a, b);
    lemma_product_bound(u.2, v.0, a, b);
    lemma_product_bound(u.0, v.2, a, b);
    lemma_product_bound(u.0, v.1, a, b);
    lemma_product_bound(u.1, v.0, a, b);
    assert(0 <= a * b) by (nonlinear_arith)
        requires
            0 <= a,
            0 <= b,
    ;
    lemma_product_bound(u.1 * v.2 - u.2 * v.1, w.0, 2 * (a * b), c);
    lemma_product_bound(u.2 * v.0 - u.0 * v.2, w.1, 2 * (a * b), c);
    lemma_product_bound(u.0 * v.1 - u.1 * v.0, w.2, 2 * (a * b), c);
    assert((2 * (a * b)) * c == 2 * (a * b * c)) by (nonlinear_arith);
}

proof fn lemma_spread(k: int, a: int, x: int, b: int)
    ensures
        (k * a + x) * b == k * (a * b) + x * b,
        b * (k * a + x) == k * (b * a) + b * x,
{
    assert((k * a + x) * b == k * (a * b) + x * b) by (nonlinear_arith);
    assert(b * (k * a + x) == k * (b * a) + b * x) by (nonlinear_arith);
}

proof fn lemma_rotated(a: int, b: int, c: int, d: int, e: int)
    ensures
        (a * b - c * d) * e == (b * e) * a - (d * e) * c,
        a * b == b * a,
        c * d == d * c,
{
    assert((a * b - c * d) * e == (b * e) * a - (d * e) * c) by (nonlinear_arith);
    assert(a * b == b * a) by (nonlinear_arith);
    assert(c * d == d * c) by (nonlinear_arith);
}

proof fn lemma_apart(a: int, b: int, c: int)
    ensures
        (a - b) * c == a * c - b * c,
{
    assert((a - b) * c == a * c - b * c) by (nonlinear_arith);
}

/// The triple product is linear in its first factor.
proof fn lemma_triple_linear(
    k: int,
    u: (int, int, int),
    x: (int, int, int),
    v: (int, int, int),
    w: (int, int, int),
)
    ensures
        triple(plus(times(k, u), x), v, w) == k * triple(u, v, w) + triple(x, v, w),
{
    lemma_spread(k, u.0, x.0, v.1);
    lemma_spread(k, u.0, x.0, v.2);
    lemma_spread(k, u.1, x.1, v.0);
    lemma_spread(k, u.1, x.1, v.2);
    lemma_spread(k, u.2, x.2, v.0);
    lemma_spread(k, u.2, x.2, v.1);
    let (a, b, c) = (u.1 * v.2 - u.2 * v.1, u.2 * v.0 - u.0 * v.2, u.0 * v.1 - u.1 * v.0);
    let (d, e, f) = (x.1 * v.2 - x.2 * v.1, x.2 * v.0 - x.0 * v.2, x.0 * v.1 - x.1 * v.0);
    assert(k * a == k * (u.1 * v.2) - k * (u.2 * v.1)) by (nonlinear_arith)
        requires
            a == u.1 * v.2 - u.2 * v.1,
    ;
    assert(k * b == k * (u.2 * v.0) - k * (u.0 * v.2)) by (nonlinear_arith)
        requires
            b == u.2 * v.0 - u.0 * v.2,
    ;
    assert(k * c == k * (u.0 * v.1) - k * (u.1 * v.0)) by (nonlinear_arith)
        requires
            c == u.0 * v.1 - u.1 * v.0,
    ;
    lemma_spread(k, a, d, w.0);
    lemma_spread(k, b, e, w.1);
    lemma_spread(k, c, f, w.2);
    let (p, q, r) = (a * w.0, b * w.1, c * w.2);
    assert(k * (p + q + r) == k * p + k * q + k * r) by (nonlinear_arith);
}

/// The triple product is the same for its factors in turn, and the opposite for two of them
/// exchanged.
proof fn lemma_triple_turned(u: (int, int, int), v: (int, int, int), w: (int, int, int))
    ensures
        triple(u, v, w) == triple(v, w, u),
        triple(u, v, w) == -triple(v, u, w),
{
    lemma_rotated(u.1, v.2, u.2, v.1, w.0);
    lemma_rotated(u.2, v.0, u.0, v.2, w.1);
    lemma_rotated(u.0, v.1, u.1, v.0, w.2);
    lemma_apart(v.1 * w.2, v.2 * w.1, u.0);
    lemma_apart(v.2 * w.0, v.0 * w.2, u.1);
    lemma_apart(v.0 * w.1, v.1 * w.0, u.2);
    let (a, b, c) = (u.1 * v.2 - u.2 * v.1, u.2 * v.0 - u.0 * v.2, u.0 * v.1 - u.1 * v.0);
    assert((-a) * w.0 == -(a * w.0)) by (nonlinear_arith);
    assert((-b) * w.1 == -(b * w.1)) by (nonlinear_arith);
    assert((-c) * w.2 == -(c * w.2)) by (nonlinear_arith);
}

/// A side of a ring, and the step to the next ring: the product with the sum of the normals
/// is three times that of the step and the two normals, whatever the radii.
proof fn lemma_side_and_step(n: (int, int, int), m: (int, int, int), d: (int, int, int), k: int)
    ensures
        triple(
            plus(times(-1, n), m),
            plus(times(1_000_000, d), plus(times(k, n), (0, 0, 0))),
            plus(times(2, n), m),
        ) == 3_000_000 * triple(n, m, d),
{
    let none = (0int, 0int, 0int);
    let (a, b) = (plus(times(-1, n), m), plus(times(2, n), m));
    let e = plus(times(k, n), none);
    let q = plus(times(1_000_000, d), e);
    // Along the step, and along the normal.
    lemma_triple_turned(a, q, b);
    lemma_triple_linear(1_000_000, d, e, b, a);
    lemma_triple_linear(k, n, none, b, a);
    assert(triple(none, b, a) == 0) by {
        assert(0 * b.0 == 0 && 0 * b.1 == 0 && 0 * b.2 == 0);
        assert(0 * a.0 == 0 && 0 * a.1 == 0 && 0 * a.2 == 0);
    }
    lemma_pencil(n, m, n);
    lemma_pencil(n, m, d);
    lemma_triple_turned(n, m, n);
    lemma_triple_turned(n, n, m);
    assert(triple(n, n, m) == 0);
    lemma_triple_turned(m, n, n);
    assert(triple(n, m, n) == 0);
    assert(k * 0 == 0);
}

/// The product of `d`, `2 n + m` and `m - n`.
proof fn lemma_pencil(n: (int, int, int), m: (int, int, int), d: (int, int, int))
    ensures
        triple(d, plus(times(2, n), m), plus(times(-1, n), m)) == 3 * triple(n, m, d),
{
    let (a, b) = (plus(times(-1, n), m), plus(times(2, n), m));
    lemma_triple_turned(d, b, a);
    lemma_triple_linear(2, n, m, a, d);
    // triple(b, a, d) == 2 * triple(n, a, d) + triple(m, a, d)
    lemma_triple_turned(n, a, d);
    lemma_triple_turned(m, a, d);
    lemma_triple_linear(-1, n, m, d, n);
    lemma_triple_linear(-1, n, m, d, m);
    lemma_triple_turned(n, d, n);
    lemma_triple_turned(d, n, n);
    lemma_triple_turned(n, n, d);
    lemma_triple_turned(m, d, m);
    lemma_triple_turned(d, m, m);
    lemma_triple_turned(m, m, d);
    lemma_triple_turned(m, d, n);
    lemma_triple_turned(d, n, m);
    lemma_triple_turned(n, d, m);
    lemma_triple_turned(d, m, n);
    lemma_triple_turned(n, m, d);
}

pub open spec fn dot(u: (int, int, int), v: (int, int, int)) -> int {
    u.0 * v.0 + u.1 * v.1 + u.2 * v.2
}

/// The longest coordinate of a vector.
pub open spec fn reach_of(u: (int, int, int)) -> int {
    let x = if u.0 >= 0 { u.0 } else { -u.0 };
    let y = if u.1 >= 0 { u.1 } else { -u.1 };
    let z = if u.2 >= 0 { u.2 } else { -u.2 };
    let xy = if x >= y { x } else { y };
    if xy >= z {
        xy
    } else {
        z
    }
}

/// Whether a ring stands square to a path that runs along `d`: its tangent runs that way, and
/// its side is a unit vector square to the tangent, all within rounding.
pub open spec fn stands_square(tangent: Point, side: Point, d: (int, int, int)) -> bool {
    let (t, s) = (vector_of(tangent), vector_of(side));
    &&& short(t, 1_100_000)
    &&& short(s, 1_100_000)
    &&& dot(s, s) >= 950_000_000_000
    &&& -10_000_000_000 <= dot(s, t) <= 10_000_000_000
    &&& dot(t, d) >= 900_000 * reach_of(d)
}

/// Whether the corners go round the path in five steps of equal size, each of which turns
/// the way from x to y.
pub open spec fn goes_round(around: Seq<Heading>) -> bool {
    &&& around.len() == 5
    &&& forall|s: int| 0 <= s < 5 ==> (#[trigger] around[s]).valid()
    &&& forall|s: int|
        0 <= s < 5 ==> (#[trigger] around[s]).cos * around[(s + 1) % 5].sin - around[s].sin
            * around[(s + 1) % 5].cos >= 900_000_000_000
}

/// Whether two normals are unit vectors, and so nearly one that at either radius the corners
/// stray by less than a hundredth of a step of length `reach`.
pub open spec fn hardly_turns(n: Point, m: Point, r: int, q: int, reach: int) -> bool {
    let h = step(n, m);
    &&& n.within(1_100_000)
    &&& m.within(1_100_000)
    &&& short(h, 10_000)
    &&& short(times(r, h), 10_000 * reach)
    &&& short(times(q, h), 10_000 * reach)
}

/// Whether the tube is straight from ring `i` to the next: both stand square to the step
/// between them, and their corners stand alike.
#[verifier::opaque]
pub open spec fn straight_at(
    rings: Seq<TubeRing>,
    tangents: Seq<Point>,
    across: Seq<Point>,
    around: Seq<Heading>,
    i: int,
) -> bool {
    let (a, b) = (rings[i], rings[i + 1]);
    let (sa, sb) = (side_at(tangents, across, i), side_at(tangents, across, i + 1));
    let d = step(a.centre, b.centre);
    &&& a.valid() && b.valid()
    &&& a.radius >= MIN_RADIUS && b.radius >= MIN_RADIUS
    &&& reach_of(d) >= 1_000
    &&& -reach_of(d) <= b.radius - a.radius <= reach_of(d)
    &&& stands_square(tangents[i], sa, d)
    &&& stands_square(tangents[i + 1], sb, d)
    &&& forall|s: int|
        0 <= s < 5 ==> hardly_turns(
            corner_at(a, tangents[i], sa, #[trigger] around[s]).normal,
            corner_at(b, tangents[i + 1], sb, around[s]).normal,
            a.radius as int,
            b.radius as int,
            reach_of(d),
        )
}

/// A triangle with a side on one ring and a corner on the next faces out of the tube.
proof fn lemma_outward(
    n: (int, int, int),
    m: (int, int, int),
    d: (int, int, int),
    r: int,
    k: int,
    e: (int, int, int),
    g: (int, int, int),
    h: (int, int, int),
    reach: int,
)
    requires
        short(n, 1_100_000),
        short(m, 1_100_000),
        short(d, reach),
        reach >= 1_000,
        r >= 12_500,
        -reach <= k <= reach,
        short(e, 1_000_000),
        short(g, 11_000 * reach),
        short(h, 10_000),
        triple(n, m, d) >= 600_000_000_000 * reach,
    ensures
        triple(
            plus(times(r, plus(times(-1, n), m)), e),
            plus(times(1, g), plus(times(1_000_000, d), plus(times(k, n), (0, 0, 0)))),
            plus(times(1, h), plus(times(2, n), m)),
        ) > 0,
{
    let (a, b) = (plus(times(-1, n), m), plus(times(2, n), m));
    let along = plus(times(1_000_000, d), plus(times(k, n), (0, 0, 0)));
    let q = plus(times(1, g), along);
    let sum = plus(times(1, h), b);
    lemma_triple_linear(r, a, e, q, sum);
    lemma_triple_turned(a, q, sum);
    lemma_triple_turned(q, sum, a);
    lemma_triple_linear(1, h, b, a, q);
    lemma_triple_turned(b, a, q);
    lemma_triple_turned(a, q, b);
    lemma_triple_linear(1, g, along, b, a);
    lemma_triple_turned(a, along, b);
    lemma_side_and_step(n, m, d, k);
    lemma_product_bound(k, n.0, reach, 1_100_000);
    lemma_product_bound(k, n.1, reach, 1_100_000);
    lemma_product_bound(k, n.2, reach, 1_100_000);
    assert(short(q, 2_200_000 * reach));
    let (x, y, z) = (triple(h, a, q), triple(g, b, a), triple(e, q, sum));
    lemma_triple_bound(h, a, q, 10_000, 2_200_000, 2_200_000 * reach);
    lemma_triple_bound(g, b, a, 11_000 * reach, 3_300_000, 2_200_000);
    lemma_triple_bound(e, q, sum, 1_000_000, 2_200_000 * reach, 3_310_000);
    assert(10_000 * 2_200_000 * (2_200_000 * reach) == 48_400_000_000_000_000 * reach);
    assert(11_000 * reach * 3_300_000 * 2_200_000 == 79_860_000_000_000_000 * reach);
    assert(1_000_000 * (2_200_000 * reach) * 3_310_000 == 7_282_000_000_000_000_000 * reach);
    let part = x + y + 3_000_000 * triple(n, m, d);
    assert(part >= 1_000_000_000_000_000_000 * reach);
    assert(r * part >= 12_500 * (1_000_000_000_000_000_000 * reach)) by (nonlinear_arith)
        requires
            r >= 12_500,
            part >= 1_000_000_000_000_000_000 * reach,
            reach >= 1_000,
    ;
}

/// The vector square to `s` in the plane of `s` and `t`, along `d`.
proof fn lemma_square_step(
    s: (int, int, int),
    t: (int, int, int),
    w: (int, int, int),
    d: (int, int, int),
)
    requires
        w == (t.1 * s.2 - t.2 * s.1, t.2 * s.0 - t.0 * s.2, t.0 * s.1 - t.1 * s.0),
    ensures
        triple(s, w, d) == dot(t, d) * dot(s, s) - dot(s, d) * dot(s, t),
{
    let (ss, st) = (dot(s, s), dot(s, t));
    lemma_square_axis(s.0, s.1, s.2, t.0, t.1, t.2);
    lemma_square_axis(s.1, s.2, s.0, t.1, t.2, t.0);
    lemma_square_axis(s.2, s.0, s.1, t.2, t.0, t.1);
    assert((t.0 * ss - s.0 * st) * d.0 == (t.0 * d.0) * ss - (s.0 * d.0) * st) by (nonlinear_arith);
    assert((t.1 * ss - s.1 * st) * d.1 == (t.1 * d.1) * ss - (s.1 * d.1) * st) by (nonlinear_arith);
    assert((t.2 * ss - s.2 * st) * d.2 == (t.2 * d.2) * ss - (s.2 * d.2) * st) by (nonlinear_arith);
    let (a, b, c) = (t.0 * d.0, t.1 * d.1, t.2 * d.2);
    assert((a + b + c) * ss == a * ss + b * ss + c * ss) by (nonlinear_arith);
    let (f, g, h) = (s.0 * d.0, s.1 * d.1, s.2 * d.2);
    assert((f + g + h) * st == f * st + g * st + h * st) by (nonlinear_arith);
}

proof fn lemma_square_axis(a: int, b: int, c: int, x: int, y: int, z: int)
    ensures
        b * (x * b - y * a) - c * (z * a - x * c) == x * (a * a + b * b + c * c) - a * (a * x + b
            * y + c * z),
{
    assert(b * (x * b - y * a) == x * (b * b) - a * (b * y)) by (nonlinear_arith);
    assert(c * (z * a - x * c) == a * (c * z) - x * (c * c)) by (nonlinear_arith);
    let (aa, bb, cc) = (a * a, b * b, c * c);
    assert(x * (aa + bb + cc) == x * aa + x * bb + x * cc) by (nonlinear_arith);
    let (ax, by, cz) = (a * x, b * y, c * z);
    assert(a * (ax + by + cz) == a * ax + a * by + a * cz) by (nonlinear_arith);
    assert(x * aa == a * ax) by (nonlinear_arith)
        requires
            aa == a * a,
            ax == a * x,
    ;
}

/// What is lost by rounding a coordinate down to a whole one.
proof fn lemma_rest(v: int) -> (rest: int)
    ensures
        1_000_000 * (v / 1_000_000) == v - rest,
        0 <= rest < 1_000_000,
{
    v - 1_000_000 * (v / 1_000_000)
}

/// The corners of a ring that stands square to a path go round it.
proof fn lemma_frame(
    ring: TubeRing,
    tangent: Point,
    side: Point,
    p: Heading,
    q: Heading,
    d: (int, int, int),
)
    requires
        stands_square(tangent, side, d),
        p.valid(),
        q.valid(),
        p.cos * q.sin - p.sin * q.cos >= 900_000_000_000,
    ensures
        triple(
            vector_of(corner_at(ring, tangent, side, p).normal),
            vector_of(corner_at(ring, tangent, side, q).normal),
            d,
        ) >= 600_000_000_000 * reach_of(d),
{
    let reach = reach_of(d);
    let (t, s) = (vector_of(tangent), vector_of(side));
    let up = square_to(tangent, side);
    lemma_product_bound(t.1, s.2, 1_100_000, 1_100_000);
    lemma_product_bound(t.2, s.1, 1_100_000, 1_100_000);
    lemma_product_bound(t.2, s.0, 1_100_000, 1_100_000);
    lemma_product_bound(t.0, s.2, 1_100_000, 1_100_000);
    lemma_product_bound(t.0, s.1, 1_100_000, 1_100_000);
    lemma_product_bound(t.1, s.0, 1_100_000, 1_100_000);
    let w = (t.1 * s.2 - t.2 * s.1, t.2 * s.0 - t.0 * s.2, t.0 * s.1 - t.1 * s.0);
    let u = (w.0 / 1_000_000, w.1 / 1_000_000, w.2 / 1_000_000);
    assert(vector_of(up) == u);
    let f = (-lemma_rest(w.0), -lemma_rest(w.1), -lemma_rest(w.2));
    let large = lemma_upright(s, t, w, u, f, d, reach);
    let (n, e) = lemma_normal(side, up, p);
    let (m, g) = lemma_normal(side, up, q);
    let (cp, sp, cq, sq) = (p.cos as int, p.sin as int, q.cos as int, q.sin as int);
    lemma_turns(s, u, d, n, m, e, g, cp, sp, cq, sq, reach);
}

/// The normal at an angle, before it is rounded.
proof fn lemma_normal(side: Point, up: Point, p: Heading) -> (r: ((int, int, int), (int, int, int)))
    requires
        side.within(1_100_000),
        up.within(2_500_000),
        p.valid(),
    ensures
        r.0 == vector_of(mix(side, p.cos as int, up, p.sin as int, side, 0)),
        short(r.1, 1_000_000),
        times(1_000_000, r.0) == plus(
            times(p.cos as int, vector_of(side)),
            plus(times(p.sin as int, vector_of(up)), r.1),
        ),
{
    let (c, s) = (p.cos as int, p.sin as int);
    lemma_product_bound(side.x as int, c, 1_100_000, 1_000_000);
    lemma_product_bound(side.y as int, c, 1_100_000, 1_000_000);
    lemma_product_bound(side.z as int, c, 1_100_000, 1_000_000);
    lemma_product_bound(up.x as int, s, 2_500_000, 1_000_000);
    lemma_product_bound(up.y as int, s, 2_500_000, 1_000_000);
    lemma_product_bound(up.z as int, s, 2_500_000, 1_000_000);
    let (x, y, z) = (side.x * c + up.x * s, side.y * c + up.y * s, side.z * c + up.z * s);
    assert(side.x * c == c * side.x && up.x * s == s * up.x) by (nonlinear_arith);
    assert(side.y * c == c * side.y && up.y * s == s * up.y) by (nonlinear_arith);
    assert(side.z * c == c * side.z && up.z * s == s * up.z) by (nonlinear_arith);
    assert(side.x * 0 == 0 && side.y * 0 == 0 && side.z * 0 == 0);
    let e = (-lemma_rest(x), -lemma_rest(y), -lemma_rest(z));
    (vector_of(mix(side, c, up, s, side, 0)), e)
}

/// The side and the way up of a ring enclose an area that faces along the path.
proof fn lemma_upright(
    s: (int, int, int),
    t: (int, int, int),
    w: (int, int, int),
    u: (int, int, int),
    f: (int, int, int),
    d: (int, int, int),
    reach: int,
) -> (k: int)
    requires
        short(s, 1_100_000),
        short(t, 1_100_000),
        short(d, reach),
        short(f, 1_000_000),
        reach >= 0,
        dot(s, s) >= 950_000_000_000,
        -10_000_000_000 <= dot(s, t) <= 10_000_000_000,
        dot(t, d) >= 900_000 * reach,
        w == (t.1 * s.2 - t.2 * s.1, t.2 * s.0 - t.0 * s.2, t.0 * s.1 - t.1 * s.0),
        times(1_000_000, u) == plus(times(1, w), f),
    ensures
        k == triple(s, u, d),
        k >= 800_000_000_000 * reach,
{
    let k = triple(s, u, d);
    let none = (0int, 0int, 0int);
    lemma_triple_turned(s, u, d);
    lemma_triple_linear(1_000_000, u, none, d, s);
    assert(plus(times(1_000_000, u), none) == plus(times(1, w), f));
    lemma_triple_linear(1, w, f, d, s);
    assert(triple(none, d, s) == 0) by {
        assert(0 * d.0 == 0 && 0 * d.1 == 0 && 0 * d.2 == 0);
        assert(0 * s.0 == 0 && 0 * s.1 == 0 && 0 * s.2 == 0);
    }
    lemma_triple_turned(s, w, d);
    lemma_square_step(s, t, w, d);
    lemma_triple_bound(f, d, s, 1_000_000, reach, 1_100_000);
    assert(1_000_000 * reach * 1_100_000 == 1_100_000_000_000 * reach);
    lemma_product_bound(s.0, d.0, 1_100_000, reach);
    lemma_product_bound(s.1, d.1, 1_100_000, reach);
    lemma_product_bound(s.2, d.2, 1_100_000, reach);
    lemma_product_bound(dot(s, d), dot(s, t), 3_300_000 * reach, 10_000_000_000);
    assert((3_300_000 * reach) * 10_000_000_000 == 33_000_000_000_000_000 * reach);
    let (td, ss) = (dot(t, d), dot(s, s));
    assert(td * ss >= (900_000 * reach) * 950_000_000_000) by (nonlinear_arith)
        requires
            td >= 900_000 * reach,
            ss >= 950_000_000_000,
            reach >= 0,
    ;
    k
}

/// Two corners of a ring, the second further round than the first.
proof fn lemma_turns(
    s: (int, int, int),
    u: (int, int, int),
    d: (int, int, int),
    n: (int, int, int),
    m: (int, int, int),
    e: (int, int, int),
    g: (int, int, int),
    cp: int,
    sp: int,
    cq: int,
    sq: int,
    reach: int,
)
    requires
        short(s, 1_100_000),
        short(u, 2_500_000),
        short(d, reach),
        short(e, 1_000_000),
        short(g, 1_000_000),
        reach >= 0,
        -1_000_000 <= cp <= 1_000_000,
        -1_000_000 <= sp <= 1_000_000,
        -1_000_000 <= cq <= 1_000_000,
        -1_000_000 <= sq <= 1_000_000,
        cp * sq - sp * cq >= 900_000_000_000,
        triple(s, u, d) >= 800_000_000_000 * reach,
        times(1_000_000, n) == plus(times(cp, s), plus(times(sp, u), e)),
        times(1_000_000, m) == plus(times(cq, s), plus(times(sq, u), g)),
    ensures
        triple(n, m, d) >= 600_000_000_000 * reach,
{
    let none = (0int, 0int, 0int);
    let k = triple(s, u, d);
    let x = plus(times(1_000_000, n), none);
    let y = plus(times(1_000_000, m), none);
    let (v, z) = (plus(times(sp, u), e), plus(times(sq, u), g));
    assert(x == plus(times(cp, s), v) && y == plus(times(cq, s), z));
    // The scaled product is that of the scaled normals.
    lemma_triple_linear(1_000_000, n, none, m, d);
    lemma_triple_turned(x, m, d);
    lemma_triple_linear(1_000_000, m, none, d, x);
    lemma_triple_turned(x, y, d);
    lemma_nothing(m, d);
    lemma_nothing(d, x);
    assert(triple(x, y, d) == 1_000_000 * (1_000_000 * triple(n, m, d)));
    // It is the turn times the area that side and way up enclose.
    lemma_triple_linear(cp, s, v, y, d);
    lemma_triple_linear(sp, u, e, y, d);
    lemma_triple_turned(s, y, d);
    lemma_triple_turned(u, y, d);
    lemma_triple_linear(cq, s, z, d, s);
    lemma_triple_linear(sq, u, g, d, s);
    lemma_triple_linear(cq, s, z, d, u);
    lemma_triple_linear(sq, u, g, d, u);
    lemma_twice(s, d);
    lemma_twice(u, d);
    lemma_triple_turned(s, u, d);
    lemma_triple_turned(u, d, s);
    lemma_triple_turned(s, d, u);
    lemma_triple_turned(d, u, s);
    lemma_triple_turned(u, s, d);
    let (a, b, c) = (triple(g, d, s), triple(g, d, u), triple(e, y, d));
    assert(triple(s, y, d) == sq * k + a) by {
        assert(cq * 0 == 0);
    }
    assert(triple(u, y, d) == -(cq * k) + b) by {
        assert(cq * (-k) == -(cq * k)) by (nonlinear_arith);
        assert(sq * 0 == 0);
    }
    assert(cp * (sq * k + a) == (cp * sq) * k + cp * a) by (nonlinear_arith);
    assert(sp * (-(cq * k) + b) == -((sp * cq) * k) + sp * b) by (nonlinear_arith);
    let turn = cp * sq - sp * cq;
    assert(turn * k == (cp * sq) * k - (sp * cq) * k) by (nonlinear_arith)
        requires
            turn == cp * sq - sp * cq,
    ;
    lemma_triple_bound(g, d, s, 1_000_000, reach, 1_100_000);
    lemma_triple_bound(g, d, u, 1_000_000, reach, 2_500_000);
    assert(1_000_000 * reach * 1_100_000 == 1_100_000_000_000 * reach);
    assert(1_000_000 * reach * 2_500_000 == 2_500_000_000_000 * reach);
    lemma_product_bound(cp, a, 1_000_000, 6_600_000_000_000 * reach);
    lemma_product_bound(sp, b, 1_000_000, 15_000_000_000_000 * reach);
    lemma_product_bound(cq, s.0, 1_000_000, 1_100_000);
    lemma_product_bound(cq, s.1, 1_000_000, 1_100_000);
    lemma_product_bound(cq, s.2, 1_000_000, 1_100_000);
    lemma_product_bound(sq, u.0, 1_000_000, 2_500_000);
    lemma_product_bound(sq, u.1, 1_000_000, 2_500_000);
    lemma_product_bound(sq, u.2, 1_000_000, 2_500_000);
    lemma_triple_bound(e, y, d, 1_000_000, 3_700_000_000_000, reach);
    assert(1_000_000 * 3_700_000_000_000 * reach == 3_700_000_000_000_000_000 * reach);
    assert(turn * k >= 900_000_000_000 * (800_000_000_000 * reach)) by (nonlinear_arith)
        requires
            turn >= 900_000_000_000,
            k >= 800_000_000_000 * reach,
            reach >= 0,
    ;
}

proof fn lemma_nothing(u: (int, int, int), v: (int, int, int))
    ensures
        triple((0, 0, 0), u, v) == 0,
{
    assert(0 * u.0 == 0 && 0 * u.1 == 0 && 0 * u.2 == 0);
    assert(0 * v.0 == 0 && 0 * v.1 == 0 && 0 * v.2 == 0);
}

/// A vector taken twice encloses nothing.
proof fn lemma_twice(u: (int, int, int), d: (int, int, int))
    ensures
        triple(u, d, u) == 0,
        triple(u, u, d) == 0,
{
    lemma_triple_turned(u, u, d);
    lemma_triple_turned(u, d, u);
    lemma_triple_turned(d, u, u);
}

/// Whether a corner lies on a ring, out along its normal.
spec fn sits_on(c: Corner, ring: TubeRing) -> bool {
    &&& c.position.x == out_from(ring.centre.x, c.normal.x, ring.radius as int)
    &&& c.position.y == out_from(ring.centre.y, c.normal.y, ring.radius as int)
    &&& c.position.z == out_from(ring.centre.z, c.normal.z, ring.radius as int)
}

proof fn lemma_sits_on(ring: TubeRing, tangent: Point, side: Point, angle: Heading)
    requires
        ring.valid(),
        corner_at(ring, tangent, side, angle).normal.within(1_100_000),
    ensures
        sits_on(corner_at(ring, tangent, side, angle), ring),
{
    let n = corner_at(ring, tangent, side, angle).normal;
    lemma_product_bound(n.x as int, ring.radius as int, 1_100_000, 0x10_0000_0000_0000);
    lemma_product_bound(n.y as int, ring.radius as int, 1_100_000, 0x10_0000_0000_0000);
    lemma_product_bound(n.z as int, ring.radius as int, 1_100_000, 0x10_0000_0000_0000);
}

/// One coordinate of the step from a corner at `n` to one at `m`, times a million.
proof fn lemma_step_axis(c: i64, n: i64, r: int, b: i64, m: i64, q: int) -> (rest: int)
    ensures
        1_000_000 * (out_from(b, m, q) - out_from(c, n, r)) == 1_000_000 * (b - c) + (q - r) * n + q
            * (m - n) + rest,
        q == r ==> 1_000_000 * (out_from(b, m, q) - out_from(c, n, r)) == 1_000_000 * (b - c) + r * (
        m - n) + rest,
        -1_000_000 < rest < 1_000_000,
{
    let rest = lemma_rest(n * r) - lemma_rest(m * q);
    assert(m * q - n * r == (q - r) * n + q * (m - n)) by (nonlinear_arith);
    if q == r {
        assert((q - r) * n == 0) by (nonlinear_arith)
            requires
                q == r,
        ;
    }
    rest
}

/// A triangle of two corners of one ring and a corner of the next faces out of the tube.
proof fn lemma_triangle_outward(x: Corner, y: Corner, z: Corner, a: TubeRing, b: TubeRing)
    requires
        sits_on(x, a),
        sits_on(y, a),
        sits_on(z, b),
        y.normal.within(1_100_000),
        hardly_turns(
            x.normal,
            z.normal,
            a.radius as int,
            b.radius as int,
            reach_of(step(a.centre, b.centre)),
        ),
        a.radius >= 12_500,
        reach_of(step(a.centre, b.centre)) >= 1_000,
        -reach_of(step(a.centre, b.centre)) <= b.radius - a.radius <= reach_of(
            step(a.centre, b.centre),
        ),
        triple(vector_of(x.normal), vector_of(y.normal), step(a.centre, b.centre))
            >= 600_000_000_000 * reach_of(step(a.centre, b.centre)),
    ensures
        facing(x, y, z) > 0,
{
    reveal(facing);
    let (n, m, l) = (vector_of(x.normal), vector_of(y.normal), vector_of(z.normal));
    let d = step(a.centre, b.centre);
    let (r, q) = (a.radius as int, b.radius as int);
    let h = step(x.normal, z.normal);
    let e = (
        lemma_step_axis(a.centre.x, x.normal.x, r, a.centre.x, y.normal.x, r),
        lemma_step_axis(a.centre.y, x.normal.y, r, a.centre.y, y.normal.y, r),
        lemma_step_axis(a.centre.z, x.normal.z, r, a.centre.z, y.normal.z, r),
    );
    let f = (
        lemma_step_axis(a.centre.x, x.normal.x, r, b.centre.x, z.normal.x, q),
        lemma_step_axis(a.centre.y, x.normal.y, r, b.centre.y, z.normal.y, q),
        lemma_step_axis(a.centre.z, x.normal.z, r, b.centre.z, z.normal.z, q),
    );
    let g = plus(times(q, h), f);
    let none = (0int, 0int, 0int);
    let side = plus(times(r, plus(times(-1, n), m)), e);
    let over = plus(times(1, g), plus(times(1_000_000, d), plus(times(q - r, n), none)));
    let sum = plus(times(1, h), plus(times(2, n), m));
    let (u, v) = (step(x.position, y.position), step(x.position, z.position));
    assert(plus(times(1_000_000, u), none) == side) by {
        assert(r * (-1 * n.0 + m.0) == r * (m.0 - n.0));
        assert(r * (-1 * n.1 + m.1) == r * (m.1 - n.1));
        assert(r * (-1 * n.2 + m.2) == r * (m.2 - n.2));
    }
    assert(plus(times(1_000_000, v), none) == over);
    assert(plus(plus(n, m), l) == sum);
    lemma_outward(n, m, d, r, q - r, e, g, h, reach_of(d));
    lemma_triple_linear(1_000_000, u, none, over, sum);
    lemma_nothing(over, sum);
    lemma_triple_turned(u, over, sum);
    lemma_triple_linear(1_000_000, v, none, sum, u);
    lemma_nothing(sum, u);
    lemma_triple_turned(u, v, sum);
}

/// A triangle faces the same way from whichever corner it is begun.
proof fn lemma_facing_turned(a: Corner, b: Corner, c: Corner)
    ensures
        facing(a, b, c) == facing(b, c, a),
{
    reveal(facing);
    let none = (0int, 0int, 0int);
    let (u, v) = (step(a.position, b.position), step(a.position, c.position));
    let (x, y) = (step(b.position, c.position), step(b.position, a.position));
    let sum = plus(plus(vector_of(a.normal), vector_of(b.normal)), vector_of(c.normal));
    assert(x == plus(times(-1, u), v));
    assert(y == plus(times(-1, u), none));
    assert(plus(plus(vector_of(b.normal), vector_of(c.normal)), vector_of(a.normal)) == sum);
    // (v - u) x (-u) == u x v
    lemma_triple_linear(-1, u, v, y, sum);
    lemma_triple_turned(u, y, sum);
    lemma_triple_turned(v, y, sum);
    lemma_triple_linear(-1, u, none, sum, u);
    lemma_triple_linear(-1, u, none, sum, v);
    lemma_nothing(sum, u);
    lemma_nothing(sum, v);
    lemma_twice(u, sum);
    lemma_triple_turned(u, sum, v);
    lemma_triple_turned(sum, v, u);
    lemma_triple_turned(v, u, sum);
}

/// The step back is as long as the step on, and what goes round one goes round the other in
/// the opposite order.
proof fn lemma_step_back(a: Point, b: Point, n: (int, int, int), m: (int, int, int))
    ensures
        reach_of(step(a, b)) == reach_of(step(b, a)),
        triple(n, m, step(a, b)) == triple(m, n, step(b, a)),
{
    let none = (0int, 0int, 0int);
    let d = step(a, b);
    assert(step(b, a) == plus(times(-1, d), none));
    lemma_triple_turned(m, n, step(b, a));
    lemma_triple_turned(n, step(b, a), m);
    lemma_triple_linear(-1, d, none, m, n);
    lemma_nothing(m, n);
    lemma_triple_turned(d, m, n);
    lemma_triple_turned(m, n, d);
}

/// The two triangles between corners `s` and `s + 1` of two rings face out of a straight tube.
proof fn lemma_quad_outward(
    rings: Seq<TubeRing>,
    tangents: Seq<Point>,
    across: Seq<Point>,
    around: Seq<Heading>,
    i: int,
    s: int,
)
    requires
        goes_round(around),
        straight_at(rings, tangents, across, around, i),
        0 <= s < 5,
    ensures
        ({
            let (a, b) = (rings[i], rings[i + 1]);
            let (ta, tb) = (tangents[i], tangents[i + 1]);
            let (sa, sb) = (side_at(tangents, across, i), side_at(tangents, across, i + 1));
            let (p, q) = (around[s], around[(s + 1) % 5]);
            &&& facing(corner_at(a, ta, sa, p), corner_at(a, ta, sa, q), corner_at(b, tb, sb, p)) > 0
            &&& facing(corner_at(a, ta, sa, q), corner_at(b, tb, sb, q), corner_at(b, tb, sb, p)) > 0
        }),
{
    reveal(straight_at);
    let q = (s + 1) % 5;
    let (a, b) = (rings[i], rings[i + 1]);
    let (ta, tb) = (tangents[i], tangents[i + 1]);
    let (sa, sb) = (side_at(tangents, across, i), side_at(tangents, across, i + 1));
    let d = step(a.centre, b.centre);
    let (h0, h1) = (around[s], around[q]);
    assert(h0.valid() && h1.valid());
    assert(h0.cos * h1.sin - h0.sin * h1.cos >= 900_000_000_000);
    let (a0, a1) = (corner_at(a, ta, sa, h0), corner_at(a, ta, sa, h1));
    let (b0, b1) = (corner_at(b, tb, sb, h0), corner_at(b, tb, sb, h1));
    let (r0, r1) = (a.radius as int, b.radius as int);
    assert(hardly_turns(a0.normal, b0.normal, r0, r1, reach_of(d)));
    assert(hardly_turns(a1.normal, b1.normal, r0, r1, reach_of(d)));
    lemma_sits_on(a, ta, sa, h0);
    lemma_sits_on(a, ta, sa, h1);
    lemma_sits_on(b, tb, sb, h0);
    lemma_sits_on(b, tb, sb, h1);
    assert(facing(a0, a1, b0) > 0) by {
        lemma_frame(a, ta, sa, h0, h1, d);
        lemma_triangle_outward(a0, a1, b0, a, b);
    }
    assert(facing(a1, b1, b0) > 0) by {
        lemma_frame(b, tb, sb, h0, h1, d);
        lemma_step_back(a.centre, b.centre, vector_of(b0.normal), vector_of(b1.normal));
        let h = step(a1.normal, b1.normal);
        let back = step(b1.normal, a1.normal);
        assert(back.0 == -h.0 && back.1 == -h.1 && back.2 == -h.2);
        lemma_opposite(r0, h, back);
        lemma_opposite(r1, h, back);
        lemma_triangle_outward(b1, b0, a1, b, a);
        lemma_facing_turned(a1, b1, b0);
    }
}

/// Where a corner stands in the skin.
proof fn lemma_skin_at(
    rings: Seq<TubeRing>,
    tangents: Seq<Point>,
    across: Seq<Point>,
    around: Seq<Heading>,
    i: int,
    s: int,
)
    requires
        0 <= i < rings.len(),
        0 <= s < 5,
    ensures
        skin(rings, tangents, across, around)[5 * i + s] == corner_at(
            rings[i],
            tangents[i],
            side_at(tangents, across, i),
            around[s],
        ),
{
    let k = 5 * i + s;
    assert(k / 5 == i && k % 5 == s);
    assert(0 <= k < rings.len() * 5);
}

/// Every triangle of a straight tube faces out of it: seen from outside, its corners run
/// counter-clockwise.
pub proof fn law_a_straight_tube_faces_outward(
    rings: Seq<TubeRing>,
    tangents: Seq<Point>,
    across: Seq<Point>,
    around: Seq<Heading>,
    k: int,
)
    requires
        2 <= rings.len() <= MAX_RINGS,
        goes_round(around),
        forall|i: int|
            0 <= i < rings.len() - 1 ==> #[trigger] straight_at(rings, tangents, across, around, i),
        0 <= k < (rings.len() - 1) * 10,
    ensures
        stitch(rings.len() as int).len() == (rings.len() - 1) * 30,
        ({
            let (v, at) = (skin(rings, tangents, across, around), stitch(rings.len() as int));
            facing(v[at[3 * k] as int], v[at[3 * k + 1] as int], v[at[3 * k + 2] as int]) > 0
        }),
{
    let n = rings.len() as int;
    let (i, s) = (k / 10, (k % 10) / 2);
    let q = (s + 1) % 5;
    assert(straight_at(rings, tangents, across, around, i));
    lemma_quad_outward(rings, tangents, across, around, i, s);
    lemma_corners_of(n, k);
    lemma_skin_at(rings, tangents, across, around, i, s);
    lemma_skin_at(rings, tangents, across, around, i, q);
    lemma_skin_at(rings, tangents, across, around, i + 1, s);
    lemma_skin_at(rings, tangents, across, around, i + 1, q);
}

/// The corners of triangle `k` of a tube of `n` rings.
proof fn lemma_corners_of(n: int, k: int)
    requires
        2 <= n <= MAX_RINGS,
        0 <= k < (n - 1) * 10,
    ensures
        stitch(n).len() == (n - 1) * 30,
        ({
            let (at, i, s) = (stitch(n), k / 10, (k % 10) / 2);
            let q = (s + 1) % 5;
            if k % 2 == 0 {
                &&& at[3 * k] == 5 * i + s
                &&& at[3 * k + 1] == 5 * i + q
                &&& at[3 * k + 2] == 5 * (i + 1) + s
            } else {
                &&& at[3 * k] == 5 * i + q
                &&& at[3 * k + 1] == 5 * (i + 1) + q
                &&& at[3 * k + 2] == 5 * (i + 1) + s
            }
        }),
{
    let (i, s) = (k / 10, (k % 10) / 2);
    let j = 3 * (k % 2);
    assert(3 * k == 30 * i + 6 * s + j);
    lemma_stitch_at(n, i, s, j);
    lemma_stitch_at(n, i, s, j + 1);
    lemma_stitch_at(n, i, s, j + 2);
}

proof fn lemma_opposite(r: int, h: (int, int, int), back: (int, int, int))
    requires
        back == (-h.0, -h.1, -h.2),
    ensures
        times(r, back) == (-times(r, h).0, -times(r, h).1, -times(r, h).2),
{
    assert(r * (-h.0) == -(r * h.0)) by (nonlinear_arith);
    assert(r * (-h.1) == -(r * h.1)) by (nonlinear_arith);
    assert(r * (-h.2) == -(r * h.2)) by (nonlinear_arith);
}

} // verus!
