//! How the hull, the grid and the shown mesh follow the shape of the body, and what the
//! triangles of a hull add up to.

use super::body::{area_sum, box_width, cap_pose, cell_count, cell_middle, inside};
use super::body::{cavity, longest_side, part_plan, side_index, side_normal, side_position};
use super::body::{BuoyPart, Grid, PartPlan};
use super::hydro::{bottom_piece, buoyancy, crossing, double_area, geometry, magnitude, moment};
use super::hydro::{counts, rim, ring_height, ring_radius, ring_spot, sixfold_volume, square_sum};
use super::hydro::{submerged, top_piece, wall, wall_piece, wall_triangle, Heading, Shape};
use super::hydro::{edge_kept, submerged_border, Triangle, TriGeom, HULL_LIMIT, LEAST_SIXFOLD};
use super::hydro::SHAPE_LIMIT;
use super::{rings_at, segments_at, SimParams};
use crate::geom::{cross_x, cross_y, cross_z, lemma_floor_sqrt_unique, lemma_product_bound, Point};
use vstd::prelude::*;

verus! {

/// What rounding down keeps of a quotient.
proof fn lemma_quotient(n: int, d: int)
    requires
        0 < d,
    ensures
        d * (n / d) <= n < d * (n / d) + d,
{
    vstd::arithmetic::div_mod::lemma_fundamental_div_mod(n, d);
    vstd::arithmetic::div_mod::lemma_mod_bound(n, d);
}

// ---- The hull ------------------------------------------------------------------------

/// The rings stand evenly along the axis, from half a length down to half a length up.
pub proof fn law_rings_stand_evenly(shape: Shape, j: int, rings: int)
    requires
        0 < rings,
        0 <= j <= rings,
    ensures
        2 * (rings * ring_height(shape, j, rings)) <= shape.length * (2 * j - rings) < 2 * (rings
            * ring_height(shape, j, rings)) + 2 * rings,
        ring_radius(shape, 0, rings) == shape.r_bottom,
        ring_radius(shape, rings, rings) == shape.r_top,
{
    let h = ring_height(shape, j, rings);
    lemma_quotient(shape.length * (2 * j - rings), 2 * rings);
    assert((2 * rings) * h == 2 * (rings * h)) by (nonlinear_arith);
    crate::geom::law_part_of_the_way_lies_between(
        shape.r_bottom as int,
        shape.r_top as int,
        0,
        rings,
    );
    crate::geom::law_part_of_the_way_lies_between(
        shape.r_bottom as int,
        shape.r_top as int,
        rings,
        rings,
    );
}

/// A spot of a ring lies out from the axis by the ring's radius along its heading: the cosine
/// along x, the sine along z.
pub proof fn law_a_ring_goes_around_the_axis(h: Heading, y: int, r: int)
    requires
        h.valid(),
        0 <= r <= SHAPE_LIMIT,
        -SHAPE_LIMIT <= y <= SHAPE_LIMIT,
    ensures
        ({
            let p = ring_spot(h, y, r);
            &&& 1_000_000 * p.x <= h.cos * r < 1_000_000 * p.x + 1_000_000
            &&& 1_000_000 * p.z <= h.sin * r < 1_000_000 * p.z + 1_000_000
            &&& p.y == y
        }),
{
    lemma_product_bound(h.cos as int, r, 1_000_000, 0x80_0000);
    lemma_product_bound(h.sin as int, r, 1_000_000, 0x80_0000);
}

/// The headings go once around: the point behind the last is the first.
pub proof fn law_rims_close(shape: Shape, headings: Seq<Heading>, i: int, j: int, rings: int)
    requires
        0 < headings.len(),
        0 <= i < headings.len(),
    ensures
        rim(shape, headings, i, j, rings) == ring_spot(
            headings[i],
            ring_height(shape, j, rings),
            ring_radius(shape, j, rings),
        ),
        rim(shape, headings, headings.len() as int, j, rings) == rim(shape, headings, 0, j, rings),
{
    let n = headings.len() as int;
    vstd::arithmetic::div_mod::lemma_small_mod(i as nat, n as nat);
    vstd::arithmetic::div_mod::lemma_mod_self_0(n);
    vstd::arithmetic::div_mod::lemma_small_mod(0, n as nat);
}

/// The two triangles of a quad of the wall share the edge across it and run the same way around;
/// the caps join their rims to the ends of the axis, the upper the other way around than the
/// lower.
pub proof fn law_the_wall_joins_its_rims(
    shape: Shape,
    headings: Seq<Heading>,
    rings: int,
    j: int,
    i: int,
)
    ensures
        ({
            let (a, b) = (
                wall_piece(shape, headings, rings, j, i, 0),
                wall_piece(shape, headings, rings, j, i, 1),
            );
            let p = |k: int, m: int| rim(shape, headings, k, m, rings);
            &&& a.a == p(i, j) && a.b == p(i, j + 1) && a.c == p(i + 1, j)
            &&& b.a == a.c && b.b == a.b && b.c == p(i + 1, j + 1)
            &&& top_piece(shape, headings, rings, i).b == p(i + 1, rings)
            &&& top_piece(shape, headings, rings, i).c == p(i, rings)
            &&& bottom_piece(shape, headings, rings, i).b == p(i, 0)
            &&& bottom_piece(shape, headings, rings, i).c == p(i + 1, 0)
            &&& top_piece(shape, headings, rings, i).a.x == 0 && top_piece(
                shape,
                headings,
                rings,
                i,
            ).a.z == 0
            &&& bottom_piece(shape, headings, rings, i).a.x == 0 && bottom_piece(
                shape,
                headings,
                rings,
                i,
            ).a.z == 0
        }),
{
}

/// The wall has two triangles for each heading and band, band after band.
pub proof fn law_the_wall_goes_band_by_band(
    shape: Shape,
    headings: Seq<Heading>,
    rings: int,
    j: int,
    i: int,
    s: int,
)
    requires
        0 < headings.len(),
        0 <= j < rings,
        0 <= i < headings.len(),
        0 <= s < 2,
    ensures
        ({
            let n = headings.len() as int;
            let k = 2 * n * j + 2 * i + s;
            &&& 0 <= k < 2 * n * rings
            &&& wall(shape, headings, rings)[k] == wall_piece(shape, headings, rings, j, i, s)
        }),
{
    let n = headings.len() as int;
    let k = 2 * n * j + 2 * i + s;
    let r = 2 * i + s;
    assert((2 * n) * j == 2 * n * j) by (nonlinear_arith);
    assert(0 <= 2 * n * j) by (nonlinear_arith)
        requires
            n > 0,
            j >= 0,
    ;
    assert(2 * n * j + 2 * n <= 2 * n * rings) by (nonlinear_arith)
        requires
            n > 0,
            j + 1 <= rings,
    ;
    vstd::arithmetic::div_mod::lemma_fundamental_div_mod_converse(k, 2 * n, j, r);
    assert(r / 2 == i);
    let m = n * j;
    assert(2 * n * j == 2 * m) by (nonlinear_arith)
        requires
            m == n * j,
    ;
    assert(k % 2 == s);
    assert(wall(shape, headings, rings)[k] == wall_triangle(shape, headings, rings, k));
}

// ---- Clipping ------------------------------------------------------------------------

/// An edge that crosses the water meets it on the way from the one end to the other, as far along
/// as its height has gone, on every axis.
pub proof fn law_an_edge_meets_the_water_on_its_way(p: Point, q: Point, level: i64)
    requires
        p.y <= level < q.y || q.y <= level < p.y,
        p.is_local(),
        q.is_local(),
    ensures
        ({
            let c = crossing(p, q, level);
            let (n, d) = (magnitude(p.y - level), magnitude(p.y - q.y));
            &&& c.y == level
            &&& p.x <= q.x ==> 0 <= (q.x - p.x) * n - (c.x - p.x) * d < d
            &&& q.x <= p.x ==> 0 <= (p.x - q.x) * n - (p.x - c.x) * d < d
            &&& p.z <= q.z ==> 0 <= (q.z - p.z) * n - (c.z - p.z) * d < d
            &&& q.z <= p.z ==> 0 <= (p.z - q.z) * n - (p.z - c.z) * d < d
        }),
{
    let (n, d) = (magnitude(p.y - level), magnitude(p.y - q.y));
    crate::geom::law_part_of_the_way_lies_between(p.x as int, q.x as int, n, d);
    crate::geom::law_part_of_the_way_lies_between(p.y as int, q.y as int, n, d);
    crate::geom::law_part_of_the_way_lies_between(p.z as int, q.z as int, n, d);
    let c = crossing(p, q, level);
    if p.y <= q.y {
        assert(d == q.y - p.y && n == level - p.y);
        let t = (d * n) / d;
        vstd::arithmetic::div_mod::lemma_fundamental_div_mod_converse(d * n, d, n, 0);
    } else {
        assert(d == p.y - q.y && n == p.y - level);
        vstd::arithmetic::div_mod::lemma_fundamental_div_mod_converse(d * n, d, n, 0);
    }
}

/// Of a triangle on the waterline one piece is kept where one corner is under water, and two
/// where two are: the first corner of what is kept is a corner under water, or where the edge
/// from the first corner goes under.
pub proof fn law_what_is_kept_on_the_waterline(tri: Triangle, level: i64)
    ensures
        tri.a.y <= level && tri.b.y > level && tri.c.y > level ==> submerged(tri, level) == seq![
            Triangle {
                a: tri.a,
                b: crossing(tri.a, tri.b, level),
                c: crossing(tri.c, tri.a, level),
            },
        ],
        tri.a.y <= level && tri.b.y <= level && tri.c.y > level ==> submerged(tri, level) == seq![
            Triangle { a: tri.a, b: tri.b, c: crossing(tri.b, tri.c, level) },
            Triangle {
                a: tri.a,
                b: crossing(tri.b, tri.c, level),
                c: crossing(tri.c, tri.a, level),
            },
        ],
        tri.a.y > level && tri.b.y <= level && tri.c.y > level ==> submerged(tri, level) == seq![
            Triangle {
                a: crossing(tri.a, tri.b, level),
                b: tri.b,
                c: crossing(tri.b, tri.c, level),
            },
        ],
        tri.a.y > level && tri.b.y > level && tri.c.y <= level ==> submerged(tri, level) == seq![
            Triangle {
                a: crossing(tri.b, tri.c, level),
                b: tri.c,
                c: crossing(tri.c, tri.a, level),
            },
        ],
{
    let (ab, bc, ca) = (
        edge_kept(tri.a, tri.b, level),
        edge_kept(tri.b, tri.c, level),
        edge_kept(tri.c, tri.a, level),
    );
    let border = submerged_border(tri, level);
    assert(border == ab + bc + ca);
    if tri.a.y <= level && tri.b.y > level && tri.c.y > level {
        assert(border =~= seq![
            tri.a,
            crossing(tri.a, tri.b, level),
            crossing(tri.c, tri.a, level),
        ]);
    }
    if tri.a.y <= level && tri.b.y <= level && tri.c.y > level {
        assert(border =~= seq![
            tri.a,
            tri.b,
            crossing(tri.b, tri.c, level),
            crossing(tri.c, tri.a, level),
        ]);
    }
    if tri.a.y > level && tri.b.y <= level && tri.c.y > level {
        assert(border =~= seq![
            crossing(tri.a, tri.b, level),
            tri.b,
            crossing(tri.b, tri.c, level),
        ]);
    }
    if tri.a.y > level && tri.b.y > level && tri.c.y <= level {
        assert(border =~= seq![
            crossing(tri.b, tri.c, level),
            tri.c,
            crossing(tri.c, tri.a, level),
        ]);
    }
}

// ---- Areas and centres ---------------------------------------------------------------

/// The normal of a triangle is that of its corners, which stands square on both of its sides.
pub proof fn law_the_area_vector_is_the_normal(tri: Triangle)
    ensures
        tri.area_x() == cross_x(tri.a, tri.b, tri.c),
        tri.area_y() == cross_y(tri.a, tri.b, tri.c),
        tri.area_z() == cross_z(tri.a, tri.b, tri.c),
{
}

/// A triangle with an area has a unit normal along its normal, half its doubled area and its
/// middle between its corners, each to its rounding: `d` is its doubled area, rounded down. One
/// of almost no area has none of these.
pub proof fn law_the_geometry_of_a_triangle(tri: Triangle, d: int)
    requires
        tri.within(HULL_LIMIT as int),
        0 <= d,
        d * d <= tri.area_x() * tri.area_x() + tri.area_y() * tri.area_y() + tri.area_z()
            * tri.area_z() < (d + 1) * (d + 1),
    ensures
        d < 1_000 ==> geometry(tri) is None,
        d >= 1_000 ==> geometry(tri) is Some && {
            let g = geometry(tri)->0;
            &&& d * g.normal.x <= 1_000_000 * tri.area_x() < d * g.normal.x + d
            &&& d * g.normal.y <= 1_000_000 * tri.area_y() < d * g.normal.y + d
            &&& d * g.normal.z <= 1_000_000 * tri.area_z() < d * g.normal.z + d
            &&& 2 * g.area <= d <= 2 * g.area + 1
            &&& 3 * g.centroid.x <= tri.a.x + tri.b.x + tri.c.x < 3 * g.centroid.x + 3
            &&& 3 * g.centroid.y <= tri.a.y + tri.b.y + tri.c.y < 3 * g.centroid.y + 3
            &&& 3 * g.centroid.z <= tri.a.z + tri.b.z + tri.c.z < 3 * g.centroid.z + 3
        },
{
    let (x, y, z) = (tri.area_x(), tri.area_y(), tri.area_z());
    lemma_area(tri.b.y - tri.a.y, tri.c.z - tri.a.z, tri.b.z - tri.a.z, tri.c.y - tri.a.y);
    lemma_area(tri.b.z - tri.a.z, tri.c.x - tri.a.x, tri.b.x - tri.a.x, tri.c.z - tri.a.z);
    lemma_area(tri.b.x - tri.a.x, tri.c.y - tri.a.y, tri.b.y - tri.a.y, tri.c.x - tri.a.x);
    assert(x * x >= 0 && y * y >= 0 && z * z >= 0) by (nonlinear_arith);
    let v = tri.area_vector();
    assert(v.x == x && v.y == y && v.z == z);
    lemma_floor_sqrt_unique(d as nat, v.len2() as nat);
    assert(double_area(tri) == d);
    if d >= 1_000 {
        lemma_unit_part(x, d, x * x + y * y + z * z);
        lemma_unit_part(y, d, x * x + y * y + z * z);
        lemma_unit_part(z, d, x * x + y * y + z * z);
        assert(d < 0x1_0000_0000_0000_0000) by (nonlinear_arith)
            requires
                d * d <= 3 * (0x80_0000_0000_0000int * 0x80_0000_0000_0000int),
                d >= 0,
        ;
    }
}

proof fn lemma_area(p: int, q: int, r: int, s: int)
    requires
        -2 * HULL_LIMIT <= p <= 2 * HULL_LIMIT,
        -2 * HULL_LIMIT <= q <= 2 * HULL_LIMIT,
        -2 * HULL_LIMIT <= r <= 2 * HULL_LIMIT,
        -2 * HULL_LIMIT <= s <= 2 * HULL_LIMIT,
    ensures
        -0x80_0000_0000_0000 <= p * q - r * s <= 0x80_0000_0000_0000,
        (p * q - r * s) * (p * q - r * s) <= 0x80_0000_0000_0000int * 0x80_0000_0000_0000int,
{
    lemma_product_bound(p, q, 0x800_0000, 0x800_0000);
    lemma_product_bound(r, s, 0x800_0000, 0x800_0000);
    let a = p * q - r * s;
    lemma_product_bound(a, a, 0x80_0000_0000_0000, 0x80_0000_0000_0000);
}

proof fn lemma_unit_part(v: int, d: int, n: int)
    requires
        -0x80_0000_0000_0000 <= v <= 0x80_0000_0000_0000,
        v * v <= n,
        n < (d + 1) * (d + 1),
        1_000 <= d,
    ensures
        d * ((v * 1_000_000) / d) <= 1_000_000 * v < d * ((v * 1_000_000) / d) + d,
        -2_000_001 <= (v * 1_000_000) / d <= 2_000_000,
{
    lemma_quotient(v * 1_000_000, d);
    let q = (v * 1_000_000) / d;
    assert(-(d + 1) < v < d + 1) by (nonlinear_arith)
        requires
            v * v < (d + 1) * (d + 1),
            d >= 0,
    ;
    assert(q <= 2_000_000) by (nonlinear_arith)
        requires
            d * q <= v * 1_000_000,
            v <= d,
            d >= 1,
    ;
    assert(q >= -2_000_001) by (nonlinear_arith)
        requires
            v * 1_000_000 < d * q + d,
            v >= -d,
            d >= 1,
    ;
}

/// The sum that a moment is made of is half the squares of the corners' sums in pairs.
pub proof fn law_a_square_sum_is_of_pairs(p: int, q: int, r: int)
    ensures
        2 * square_sum(p, q, r) == (p + q) * (p + q) + (q + r) * (q + r) + (r + p) * (r + p),
{
    assert(2 * (p * p + q * q + r * r + p * q + p * r + q * r) == (p + q) * (p + q) + (q + r) * (q
        + r) + (r + p) * (r + p)) by (nonlinear_arith);
}

/// One more triangle adds to the volume what it has under the surface, and to the moment along
/// each axis its own part of it; one of no area adds nothing.
pub proof fn law_triangles_add_their_parts(tris: Seq<Triangle>, t: Triangle, level: i64)
    ensures
        ({
            let more = tris.push(t);
            let (m, n) = (moment(tris, level), moment(more, level));
            &&& counts(t) ==> {
                &&& sixfold_volume(more, level) - sixfold_volume(tris, level) == (t.a.y - level + (
                t.b.y - level) + (t.c.y - level)) * t.area_y()
                &&& n.0 - m.0 == square_sum(t.a.x as int, t.b.x as int, t.c.x as int) * t.area_x()
                &&& n.1 - m.1 == square_sum(t.a.y - level, t.b.y - level, t.c.y - level)
                    * t.area_y()
                &&& n.2 - m.2 == square_sum(t.a.z as int, t.b.z as int, t.c.z as int) * t.area_z()
            }
            &&& !counts(t) ==> sixfold_volume(more, level) == sixfold_volume(tris, level) && n == m
        }),
        sixfold_volume(Seq::empty(), level) == 0,
        moment(Seq::empty(), level) == (0int, 0int, 0int),
{
    assert(tris.push(t).drop_last() == tris);
}

/// The centre of buoyancy is the moment over the volume, along each axis, and its height is
/// reckoned from the surface.
pub proof fn law_the_centre_is_the_moment_over_the_volume(tris: Seq<Triangle>, level: i64)
    requires
        ({
            let (v, m) = (sixfold_volume(tris, level), moment(tris, level));
            &&& LEAST_SIXFOLD <= v <= 0x200_0000_0000_0000_0000_0000_0000
            &&& -0x4000_0000_0000_0000 * v <= m.0 <= 0x4000_0000_0000_0000 * v
            &&& -0x4000_0000_0000_0000 * v <= m.1 <= 0x4000_0000_0000_0000 * v
            &&& -0x4000_0000_0000_0000 * v <= m.2 <= 0x4000_0000_0000_0000 * v
        }),
    ensures
        buoyancy(tris, level) is Some,
        ({
            let (v, m) = (sixfold_volume(tris, level), moment(tris, level));
            let b = buoyancy(tris, level)->0;
            let k = 4 * v;
            &&& b.sixfold == v
            &&& k * b.x <= m.0 < k * b.x + k
            &&& k * (b.y - level) <= m.1 < k * (b.y - level) + k
            &&& k * b.z <= m.2 < k * b.z + k
        }),
{
    let (v, m) = (sixfold_volume(tris, level), moment(tris, level));
    lemma_centre(m.0, v);
    lemma_centre(m.1, v);
    lemma_centre(m.2, v);
}

proof fn lemma_centre(m: int, v: int)
    requires
        0 < v,
        -0x4000_0000_0000_0000 * v <= m <= 0x4000_0000_0000_0000 * v,
    ensures
        (4 * v) * (m / (4 * v)) <= m < (4 * v) * (m / (4 * v)) + 4 * v,
        -0x4000_0000_0000_0001 <= m / (4 * v) <= 0x4000_0000_0000_0000,
{
    lemma_quotient(m, 4 * v);
    let (q, k) = (m / (4 * v), 4 * v);
    assert(q <= 0x4000_0000_0000_0000) by (nonlinear_arith)
        requires
            k * q <= m,
            m <= 0x4000_0000_0000_0000 * v,
            k == 4 * v,
            0 < v,
    ;
    assert(q >= -0x4000_0000_0000_0001) by (nonlinear_arith)
        requires
            m < k * q + k,
            -0x4000_0000_0000_0000 * v <= m,
            k == 4 * v,
            0 < v,
    ;
}

// ---- The solid and its grid ----------------------------------------------------------

/// A point lies in the body between its ends and within the wall: at the lower end within its
/// radius, at the upper end within that one's, and midway within their mean.
pub proof fn law_the_body_lies_within_its_wall(
    r_top: int,
    r_bottom: int,
    length: int,
    x: int,
    y: int,
    z: int,
)
    requires
        0 <= r_top,
        0 <= r_bottom,
        0 < length,
    ensures
        2 * y > length || 2 * y < -length ==> !inside(r_top, r_bottom, length, x, y, z),
        2 * y == -length ==> (inside(r_top, r_bottom, length, x, y, z) <==> x * x + z * z <= r_bottom
            * r_bottom),
        2 * y == length ==> (inside(r_top, r_bottom, length, x, y, z) <==> x * x + z * z <= r_top
            * r_top),
        y == 0 ==> (inside(r_top, r_bottom, length, x, y, z) <==> 4 * (x * x + z * z) <= (r_top
            + r_bottom) * (r_top + r_bottom)),
{
    let n = x * x + z * z;
    let l = 2 * length;
    let reach = r_bottom * l + (r_top - r_bottom) * (2 * y + length);
    if 2 * y == -length {
        assert(reach == r_bottom * l) by (nonlinear_arith)
            requires
                reach == r_bottom * l + (r_top - r_bottom) * (2 * y + length),
                2 * y + length == 0,
        ;
        lemma_wall(n, r_bottom, l);
    }
    if 2 * y == length {
        assert(reach == r_top * l) by (nonlinear_arith)
            requires
                reach == r_bottom * l + (r_top - r_bottom) * (2 * y + length),
                2 * y + length == l,
        ;
        lemma_wall(n, r_top, l);
    }
    if y == 0 {
        let s = r_top + r_bottom;
        assert(reach == s * length) by (nonlinear_arith)
            requires
                reach == r_bottom * l + (r_top - r_bottom) * (2 * y + length),
                y == 0,
                l == 2 * length,
                s == r_top + r_bottom,
        ;
        lemma_wall(4 * n, s, length);
        assert(n * (l * l) == (4 * n) * (length * length)) by (nonlinear_arith)
            requires
                l == 2 * length,
        ;
    }
}

proof fn lemma_wall(n: int, r: int, l: int)
    requires
        0 < l,
    ensures
        n * (l * l) <= (r * l) * (r * l) <==> n <= r * r,
{
    assert((r * l) * (r * l) == (r * r) * (l * l)) by (nonlinear_arith);
    let (k, m) = (l * l, r * r);
    assert(k > 0) by (nonlinear_arith)
        requires
            k == l * l,
            l > 0,
    ;
    assert(n <= m ==> n * k <= m * k) by (nonlinear_arith)
        requires
            k > 0,
    ;
    assert(n > m ==> n * k > m * k) by (nonlinear_arith)
        requires
            k > 0,
    ;
}

/// The longest side of the box around the body is its length or twice its larger radius, and it
/// is as wide as the latter.
pub proof fn law_the_box_holds_the_body(shape: Shape)
    requires
        shape.valid(),
    ensures
        longest_side(shape) >= shape.length,
        longest_side(shape) >= 2 * shape.r_top,
        longest_side(shape) >= 2 * shape.r_bottom,
        longest_side(shape) == shape.length || longest_side(shape) == 2 * shape.r_top
            || longest_side(shape) == 2 * shape.r_bottom,
        box_width(shape) >= 2 * shape.r_top,
        box_width(shape) >= 2 * shape.r_bottom,
        box_width(shape) == 2 * shape.r_top || box_width(shape) == 2 * shape.r_bottom,
{
}

/// As many cells are taken as cover the extent, and no more than that; always one at least.
pub proof fn law_cells_cover_the_extent(extent: int, side: int, res: int)
    requires
        0 < side,
        0 < res,
        0 <= extent,
    ensures
        cell_count(extent, side, res) >= 1,
        side * cell_count(extent, side, res) >= extent * res,
        cell_count(extent, side, res) > 1 ==> side * (cell_count(extent, side, res) - 1) < extent
            * res,
{
    let n = extent * res + side - 1;
    lemma_quotient(n, side);
    let q = n / side;
    assert(side * (q - 1) == side * q - side) by (nonlinear_arith);
    assert(extent * res >= 0) by (nonlinear_arith)
        requires
            extent >= 0,
            res > 0,
    ;
    if q < 1 {
        assert(side * q + side <= side) by (nonlinear_arith)
            requires
                q < 1,
                side > 0,
        ;
    }
}

/// The cells lie evenly around the middle, a cell apart: the first as far before it as the last
/// is behind.
pub proof fn law_cells_lie_around_the_middle(i: int, count: int, side: int)
    ensures
        cell_middle(i, count, side) + cell_middle(count - 1 - i, count, side) == 0,
        cell_middle(i + 1, count, side) - cell_middle(i, count, side) == 2 * side,
{
    assert(side * (2 * i + 1 - count) + side * (2 * (count - 1 - i) + 1 - count) == 0)
        by (nonlinear_arith);
    assert(side * (2 * (i + 1) + 1 - count) - side * (2 * i + 1 - count) == 2 * side)
        by (nonlinear_arith);
}

/// Every cell of the grid is numbered once: by its column, its layer and its row.
pub proof fn law_cells_are_numbered(grid: Grid, column: int, layer: int, row: int)
    requires
        0 <= column < grid.across,
        0 <= layer < grid.along,
        0 <= row < grid.across,
    ensures
        grid.cell((column * grid.along + layer) * grid.across + row) == (column, layer, row),
        0 <= (column * grid.along + layer) * grid.across + row < grid.total(),
{
    let (a, n) = (grid.across as int, grid.along as int);
    let line = column * n + layer;
    let k = line * a + row;
    vstd::arithmetic::div_mod::lemma_fundamental_div_mod_converse(k, a, line, row);
    vstd::arithmetic::div_mod::lemma_fundamental_div_mod_converse(line, n, column, layer);
    vstd::arithmetic::div_mod::lemma_div_denominator(k, a, n);
    assert(a * n == n * a) by (nonlinear_arith);
    assert(0 <= line) by (nonlinear_arith)
        requires
            line == column * n + layer,
            column >= 0,
            n > 0,
            layer >= 0,
    ;
    assert(line + 1 <= a * n) by (nonlinear_arith)
        requires
            line == column * n + layer,
            layer + 1 <= n,
            column + 1 <= a,
            n > 0,
    ;
    assert(0 <= line * a && line * a + a <= a * (n * a)) by (nonlinear_arith)
        requires
            0 <= line,
            line + 1 <= a * n,
            a > 0,
    ;
}

/// The middle of a cell is where its column, its layer and its row put it along x, y and z, and
/// the cell is the body's where the body has its middle.
pub proof fn law_a_cell_has_its_middle(grid: Grid, shape: Shape, k: int)
    ensures
        ({
            let (c, m) = (grid.cell(k), grid.middle(k));
            let (a, n, s) = (grid.across as int, grid.along as int, grid.side as int);
            let r = 2 * grid.res;
            &&& m.0 == cell_middle(c.0, a, s) && m.1 == cell_middle(c.1, n, s) && m.2
                == cell_middle(c.2, a, s)
            &&& grid.occupied(shape, k) <==> inside(
                r * shape.r_top,
                r * shape.r_bottom,
                r * shape.length,
                m.0,
                m.1,
                m.2,
            )
        }),
{
}

/// The finer the hull, the more segments and bands it has: as many segments as asked for, and
/// three at least; a third as many bands, and two at least.
pub proof fn law_the_hull_is_as_fine_as_asked(res: u32)
    ensures
        segments_at(res) >= 3,
        res >= 3 ==> segments_at(res) == res,
        rings_at(res) >= 2,
        res >= 6 ==> 3 * rings_at(res) <= res < 3 * rings_at(res) + 3,
{
}

/// The area of the hull is that of its triangles together.
pub proof fn law_hull_areas_add_up(geoms: Seq<Option<TriGeom>>, g: TriGeom)
    ensures
        area_sum(geoms.push(Some(g))) - area_sum(geoms) == g.area,
        area_sum(geoms.push(None)) == area_sum(geoms),
        area_sum(Seq::empty()) == 0,
{
    assert(geoms.push(Some(g)).drop_last() == geoms);
    assert(geoms.push(None).drop_last() == geoms);
}

// ---- The shown mesh ------------------------------------------------------------------

/// The shown wall runs between the rims: the even vertices lie on the upper one, the odd ones on
/// the lower, two to a heading and closed behind the last.
pub proof fn law_the_shown_wall_joins_the_rims(shape: Shape, headings: Seq<Heading>, i: int)
    requires
        0 < headings.len(),
        0 <= i <= headings.len(),
    ensures
        ({
            let h = if i < headings.len() {
                headings[i]
            } else {
                headings[0]
            };
            &&& side_position(shape, headings, 2 * i) == ring_spot(
                h,
                shape.length / 2,
                shape.r_top as int,
            )
            &&& side_position(shape, headings, 2 * i + 1) == ring_spot(
                h,
                -(shape.length / 2),
                shape.r_bottom as int,
            )
        }),
{
    let n = headings.len() as int;
    assert((2 * i) / 2 == i && (2 * i + 1) / 2 == i && (2 * i) % 2 == 0 && (2 * i + 1) % 2 == 1);
    if i < n {
        vstd::arithmetic::div_mod::lemma_small_mod(i as nat, n as nat);
    } else {
        vstd::arithmetic::div_mod::lemma_mod_self_0(n);
    }
}

/// The normal of the shown wall points out along its heading, and up where the body narrows
/// upwards, square to the wall: what it has along the heading and up is as the body's length to
/// what it narrows by.
pub proof fn law_the_shown_wall_faces_out(shape: Shape, headings: Seq<Heading>, i: int)
    requires
        shape.valid(),
        0 <= i < headings.len(),
        headings[i].valid(),
    ensures
        ({
            let (h, n) = (headings[i], side_normal(shape, headings, 2 * i));
            &&& n == side_normal(shape, headings, 2 * i + 1)
            &&& h.cos >= 0 ==> n.x >= 0
            &&& h.cos <= 0 ==> n.x <= 0
            &&& h.sin >= 0 ==> n.z >= 0
            &&& h.sin <= 0 ==> n.z <= 0
            &&& shape.r_bottom >= shape.r_top ==> n.y >= 0
            &&& shape.r_bottom <= shape.r_top ==> n.y <= 0
            &&& n.x * h.sin == n.z * h.cos
            &&& 1_000_000 * (n.x * (shape.r_top - shape.r_bottom)) + h.cos * (shape.length * n.y)
                == 0
        }),
{
    let k = headings.len() as int;
    assert((2 * i) / 2 == i && (2 * i + 1) / 2 == i);
    vstd::arithmetic::div_mod::lemma_small_mod(i as nat, k as nat);
    let h = headings[i];
    let (c, s, l) = (h.cos as int, h.sin as int, shape.length as int);
    let d = shape.r_bottom - shape.r_top;
    lemma_product_bound(c, l, 1_000_000, 0x80_0000);
    lemma_product_bound(s, l, 1_000_000, 0x80_0000);
    let n = side_normal(shape, headings, 2 * i);
    assert(n.x == c * l && n.z == s * l && n.y == d * 1_000_000);
    assert(c >= 0 ==> c * l >= 0) by (nonlinear_arith)
        requires
            l > 0,
    ;
    assert(c <= 0 ==> c * l <= 0) by (nonlinear_arith)
        requires
            l > 0,
    ;
    assert(s >= 0 ==> s * l >= 0) by (nonlinear_arith)
        requires
            l > 0,
    ;
    assert(s <= 0 ==> s * l <= 0) by (nonlinear_arith)
        requires
            l > 0,
    ;
    assert((c * l) * s == (s * l) * c) by (nonlinear_arith);
    assert(1_000_000 * ((c * l) * (-d)) + c * (l * (d * 1_000_000)) == 0) by (nonlinear_arith);
}

/// Each segment of the shown wall has two triangles: from a vertex of the upper rim to the next
/// around and down, and from there down, around and up.
pub proof fn law_the_shown_wall_has_two_triangles_to_a_segment(i: int)
    requires
        0 <= i,
    ensures
        side_index(6 * i) == 2 * i,
        side_index(6 * i + 1) == 2 * i + 2,
        side_index(6 * i + 2) == 2 * i + 1,
        side_index(6 * i + 3) == 2 * i + 1,
        side_index(6 * i + 4) == 2 * i + 2,
        side_index(6 * i + 5) == 2 * i + 3,
{
    assert((6 * i) / 6 == i && (6 * i + 1) / 6 == i && (6 * i + 2) / 6 == i);
    assert((6 * i + 3) / 6 == i && (6 * i + 4) / 6 == i && (6 * i + 5) / 6 == i);
}

/// The end discs lie half a length up and down, turned away from each other, each as wide as its
/// end; the wall of a cavity is shown where there is one.
pub proof fn law_the_ends_are_closed_by_discs(shape: Shape, thickness: int)
    requires
        shape.valid(),
    ensures
        cap_pose(shape, true).y == shape.length / 2,
        cap_pose(shape, false).y == -cap_pose(shape, true).y,
        cap_pose(shape, true).quarter_turns_x == -1,
        cap_pose(shape, false).quarter_turns_x == 1,
        part_plan(BuoyPart::Cap { upper: true }, shape, thickness) == (PartPlan::Disc {
            radius: shape.r_top,
            pose: cap_pose(shape, true),
        }),
        part_plan(BuoyPart::Cap { upper: false }, shape, thickness) == (PartPlan::Disc {
            radius: shape.r_bottom,
            pose: cap_pose(shape, false),
        }),
        part_plan(BuoyPart::Side, shape, thickness) == (PartPlan::Wall { shape }),
        cavity(shape, thickness) is None ==> part_plan(BuoyPart::InnerSide, shape, thickness)
            == PartPlan::Hidden,
        cavity(shape, thickness) matches Some(c) ==> part_plan(
            BuoyPart::InnerSide,
            shape,
            thickness,
        ) == (PartPlan::Cavity { shape: c }),
{
}

/// The masses are reckoned anew just when the shape, the wall or the density of the body has
/// changed; no other setting makes a difference to them.
pub proof fn law_masses_follow_the_body(p: SimParams, q: SimParams)
    ensures
        p.mass_key() == q.mass_key() <==> p.shape == q.shape && p.wall == q.wall && p.density
            == q.density,
{
}

} // verus!
