//! Where the corners of the trajectory's tube lie.

use super::chase::{along, is_direction, mix, square_to, unit_or};
use super::trajectory::{TubeRing, RADIUS_LIMIT};
use super::tube::{corner_at, out_from, side_at, skin, tangent, transported, way};
use crate::buoyancy::hydro::Heading;
use crate::geom::Point;
use vstd::prelude::*;

verus! {

/// The way between two places is the direction of the step from the one to the other; between a
/// place and itself there is none.
pub proof fn law_the_way_leads_to_the_next(from: Point, to: Point, other: Point)
    requires
        from.is_local(),
        to.is_local(),
    ensures
        from == to ==> way(from, to, other) == other,
        from != to ==> exists|step: Point|
            {
                &&& from.x + step.x == to.x
                &&& from.y + step.y == to.y
                &&& from.z + step.z == to.z
                &&& way(from, to, other) == #[trigger] step.direction()
            },
{
    let step = to.seen_from(from);
    let (x, y, z) = (step.x as int, step.y as int, step.z as int);
    assert(from.x + x == to.x && from.y + y == to.y && from.z + z == to.z);
    lemma_square_size(x);
    lemma_square_size(y);
    lemma_square_size(z);
    if from != to {
        assert(step.len2() > 0);
        assert(way(from, to, other) == step.direction());
    }
}

proof fn lemma_square_size(x: int)
    ensures
        x * x >= 0,
        x != 0 ==> x * x > 0,
        x == 0 ==> x * x == 0,
{
    assert(x * x >= 0) by (nonlinear_arith);
    assert(x != 0 ==> x * x > 0) by (nonlinear_arith);
}

/// The path runs through a ring from the ring before it to the ring behind it, and at its ends
/// along its last step.
pub proof fn law_the_path_runs_through_its_rings(rings: Seq<TubeRing>, i: int)
    requires
        2 <= rings.len(),
        0 <= i < rings.len(),
    ensures
        ({
            let start = way(rings[0].centre, rings[1].centre, Point { x: 0, y: 1_000_000, z: 0 });
            let n = rings.len();
            &&& i == 0 ==> tangent(rings, i) == way(rings[0].centre, rings[1].centre, start)
            &&& 0 < i < n - 1 ==> tangent(rings, i) == way(
                rings[i - 1].centre,
                rings[i + 1].centre,
                start,
            )
            &&& i == n - 1 ==> tangent(rings, i) == way(
                rings[i - 1].centre,
                rings[i].centre,
                start,
            )
        }),
{
}

/// A side that is brought into a ring's plane is the side less what lies along the path there.
pub proof fn law_a_side_is_brought_along(side: Point, tangent: Point, across: Point)
    requires
        is_direction(side),
        is_direction(tangent),
    ensures
        exists|level: Point|
            {
                let k = along(side, tangent);
                &&& transported(side, tangent, across) == #[trigger] unit_or(level, across)
                &&& 1_000_000 * (side.x - level.x) >= k * tangent.x > 1_000_000 * (side.x - level.x)
                    - 1_000_000
                &&& 1_000_000 * (side.y - level.y) >= k * tangent.y > 1_000_000 * (side.y - level.y)
                    - 1_000_000
                &&& 1_000_000 * (side.z - level.z) >= k * tangent.z > 1_000_000 * (side.z - level.z)
                    - 1_000_000
            },
{
    let k = along(side, tangent);
    crate::geom::lemma_product_bound(side.x as int, tangent.x as int, 2_000_000, 2_000_000);
    crate::geom::lemma_product_bound(side.y as int, tangent.y as int, 2_000_000, 2_000_000);
    crate::geom::lemma_product_bound(side.z as int, tangent.z as int, 2_000_000, 2_000_000);
    assert(-12_000_000 <= k <= 12_000_000);
    let level = mix(side, 1_000_000, tangent, -k, side, 0);
    crate::client::chase::law_a_mix_is_the_sum_of_its_parts(side, 1_000_000, tangent, -k, side, 0);
    let (x, y, z) = (tangent.x as int, tangent.y as int, tangent.z as int);
    assert((-k) * x == -(k * x) && (-k) * y == -(k * y) && (-k) * z == -(k * z))
        by (nonlinear_arith);
    assert(transported(side, tangent, across) == unit_or(level, across));
}

/// Each ring's side is the side of the ring before it, brought along; the first ring's is its own
/// cross direction.
pub proof fn law_sides_follow_each_other(tangents: Seq<Point>, across: Seq<Point>, i: int)
    requires
        0 < i,
    ensures
        side_at(tangents, across, 0) == transported(across[0], tangents[0], across[0]),
        side_at(tangents, across, i) == transported(
            side_at(tangents, across, i - 1),
            tangents[i],
            across[i],
        ),
{
}

/// A corner lies out from its ring's centre along its normal, by the ring's radius, and is as
/// strong as its ring. Its normal runs along the side by the cosine of its angle, and square to
/// path and side by the sine.
pub proof fn law_a_corner_lies_out_along_its_normal(
    ring: TubeRing,
    tangent: Point,
    side: Point,
    angle: Heading,
)
    requires
        ring.valid(),
        is_direction(tangent),
        is_direction(side),
        angle.valid(),
    ensures
        ({
            let c = corner_at(ring, tangent, side, angle);
            let s = square_to(tangent, side);
            let r = ring.radius as int;
            &&& c.alpha == ring.alpha
            &&& 1_000_000 * (c.position.x - ring.centre.x) <= r * c.normal.x < 1_000_000 * (
            c.position.x - ring.centre.x) + 1_000_000
            &&& 1_000_000 * (c.position.y - ring.centre.y) <= r * c.normal.y < 1_000_000 * (
            c.position.y - ring.centre.y) + 1_000_000
            &&& 1_000_000 * (c.position.z - ring.centre.z) <= r * c.normal.z < 1_000_000 * (
            c.position.z - ring.centre.z) + 1_000_000
            &&& 1_000_000 * c.normal.x <= angle.cos * side.x + angle.sin * s.x < 1_000_000
                * c.normal.x + 1_000_000
            &&& 1_000_000 * c.normal.y <= angle.cos * side.y + angle.sin * s.y < 1_000_000
                * c.normal.y + 1_000_000
            &&& 1_000_000 * c.normal.z <= angle.cos * side.z + angle.sin * s.z < 1_000_000
                * c.normal.z + 1_000_000
        }),
{
    let s = square_to(tangent, side);
    lemma_square_to_bound(tangent, side);
    let c = corner_at(ring, tangent, side, angle);
    crate::client::chase::law_a_mix_is_the_sum_of_its_parts(
        side,
        angle.cos as int,
        s,
        angle.sin as int,
        side,
        0,
    );
    let n = c.normal;
    lemma_out_by_radius(ring.centre.x, n.x, ring.radius);
    lemma_out_by_radius(ring.centre.y, n.y, ring.radius);
    lemma_out_by_radius(ring.centre.z, n.z, ring.radius);
}

proof fn lemma_square_to_bound(a: Point, b: Point)
    requires
        is_direction(a),
        is_direction(b),
    ensures
        square_to(a, b).within(8_000_000),
{
    let (ax, ay, az) = (a.x as int, a.y as int, a.z as int);
    let (bx, by, bz) = (b.x as int, b.y as int, b.z as int);
    crate::geom::lemma_product_bound(ay, bz, 2_000_000, 2_000_000);
    crate::geom::lemma_product_bound(az, by, 2_000_000, 2_000_000);
    crate::geom::lemma_product_bound(az, bx, 2_000_000, 2_000_000);
    crate::geom::lemma_product_bound(ax, bz, 2_000_000, 2_000_000);
    crate::geom::lemma_product_bound(ax, by, 2_000_000, 2_000_000);
    crate::geom::lemma_product_bound(ay, bx, 2_000_000, 2_000_000);
}

proof fn lemma_out_by_radius(centre: i64, normal: i64, radius: u64)
    requires
        -0x1000_0000_0000_0000 <= centre <= 0x1000_0000_0000_0000,
        -1_000_000_000 <= normal <= 1_000_000_000,
        radius <= RADIUS_LIMIT,
    ensures
        ({
            let p = out_from(centre, normal, radius as int) as i64;
            1_000_000 * (p - centre) <= radius * normal < 1_000_000 * (p - centre) + 1_000_000
        }),
{
    let (n, r) = (normal as int, radius as int);
    crate::geom::lemma_product_bound(n, r, 1_000_000_000, 0x10_0000_0000_0000);
    assert(r * n == n * r) by (nonlinear_arith);
}

/// The corners come ring by ring, five to a ring, each at its own angle.
pub proof fn law_corners_come_ring_by_ring(
    rings: Seq<TubeRing>,
    tangents: Seq<Point>,
    across: Seq<Point>,
    around: Seq<Heading>,
    i: int,
    s: int,
)
    requires
        0 <= i < rings.len(),
        0 <= s < 5,
    ensures
        skin(rings, tangents, across, around).len() == 5 * rings.len(),
        skin(rings, tangents, across, around)[5 * i + s] == corner_at(
            rings[i],
            tangents[i],
            side_at(tangents, across, i),
            around[s],
        ),
{
    assert((5 * i + s) / 5 == i && (5 * i + s) % 5 == s);
    assert(rings.len() * 5nat == 5 * rings.len());
}

} // verus!
