//! The hull as a solid: which way it faces, and what its volume is.

use super::hydro::{caps, hull, lemma_caps_index, lemma_ring_height, lemma_ring_radius};
use super::hydro::{headings_valid, lemma_wall_piece, rim, ring_height, ring_radius, ring_spot};
use super::hydro::{bottom_piece, lemma_wall_index, moved, top_piece, wall, wall_piece};
use super::hydro::{Heading, Rotation, Shape, Triangle};
use super::hydro::{below, counts, law_clipping_is_all_or_nothing_off_the_waterline};
use super::hydro::{sixfold_volume, submerged, RIM_EPSILON, SHAPE_LIMIT};
use crate::geom::{lemma_product_bound, Point};
use vstd::prelude::*;

verus! {

// ---- Which way the hull faces --------------------------------------------------------

/// How far `q` lies round the body's axis from `p`: positive where it lies the way from x to
/// z.
pub open spec fn turn(p: Point, q: Point) -> int {
    p.x * q.z - p.z * q.x
}

/// How much a triangle faces away from the body's axis at `p`.
pub open spec fn away(tri: Triangle, p: Point) -> int {
    tri.area_x() * p.x + tri.area_z() * p.z
}

/// Whether a triangle of the body faces out of it: away from the axis at each of its corners,
/// or, where it is level, up on the upper end and down on the lower one.
#[verifier::opaque]
pub open spec fn faces_out(tri: Triangle) -> bool {
    ||| away(tri, tri.a) > 0 && away(tri, tri.b) > 0 && away(tri, tri.c) > 0
    ||| tri.a.y == tri.b.y == tri.c.y && (tri.area_y() > 0 && tri.a.y >= 0 || tri.area_y() < 0
        && tri.a.y <= 0)
}

/// Whether the headings go round the way from x to z, in steps that move a point at either
/// rim by ten micrometres or more.
pub open spec fn winds(shape: Shape, headings: Seq<Heading>) -> bool {
    forall|i: int|
        0 <= i < headings.len() ==> {
            let (h, g) = (#[trigger] headings[i], headings[(i + 1) % headings.len() as int]);
            let s = h.cos * g.sin - h.sin * g.cos;
            s * shape.r_top >= 10_000_000_000_000 && s * shape.r_bottom >= 10_000_000_000_000
        }
}

/// What is lost by rounding down to a whole micrometre.
proof fn lemma_rest(v: int) -> (rest: int)
    ensures
        1_000_000 * (v / 1_000_000) == v - rest,
        0 <= rest < 1_000_000,
{
    v - 1_000_000 * (v / 1_000_000)
}

/// A product of two rounded numbers.
proof fn lemma_rounded_product(a: int, b: int, e: int, f: int, x: int, y: int)
    requires
        1_000_000 * x == a - e,
        1_000_000 * y == b - f,
    ensures
        1_000_000_000_000 * (x * y) == a * b - a * f - e * b + e * f,
{
    assert((1_000_000 * x) * (1_000_000 * y) == 1_000_000_000_000 * (x * y)) by (nonlinear_arith);
    assert((a - e) * (b - f) == a * b - a * f - e * b + e * f) by (nonlinear_arith);
}

/// How far two points of rings lie round the axis from each other, within rounding.
pub(crate) proof fn lemma_turn(h: Heading, g: Heading, r: int, q: int, y: int, z: int)
    requires
        h.valid(),
        g.valid(),
        0 <= r <= SHAPE_LIMIT,
        0 <= q <= SHAPE_LIMIT,
    ensures
        ({
            let t = 1_000_000_000_000 * turn(ring_spot(h, y, r), ring_spot(g, z, q));
            let exact = (h.cos * g.sin - h.sin * g.cos) * (r * q);
            exact - 2_000_000_000_000 * (r + q) - 1_000_000_000_000 <= t <= exact + 2_000_000_000_000
                * (r + q) + 1_000_000_000_000
        }),
{
    let (c, s, d, u) = (h.cos as int, h.sin as int, g.cos as int, g.sin as int);
    let (p, o) = (ring_spot(h, y, r), ring_spot(g, z, q));
    lemma_product_bound(c, r, 1_000_000, r);
    lemma_product_bound(s, r, 1_000_000, r);
    lemma_product_bound(d, q, 1_000_000, q);
    lemma_product_bound(u, q, 1_000_000, q);
    let (e1, e2) = (lemma_rest(c * r), lemma_rest(u * q));
    let (e3, e4) = (lemma_rest(s * r), lemma_rest(d * q));
    assert(p.x == (c * r) / 1_000_000 && p.z == (s * r) / 1_000_000);
    assert(o.x == (d * q) / 1_000_000 && o.z == (u * q) / 1_000_000);
    lemma_rounded_product(c * r, u * q, e1, e2, p.x as int, o.z as int);
    lemma_rounded_product(s * r, d * q, e3, e4, p.z as int, o.x as int);
    assert((c * r) * (u * q) == (c * u) * (r * q)) by (nonlinear_arith);
    assert((s * r) * (d * q) == (s * d) * (r * q)) by (nonlinear_arith);
    let (cu, sd, rq) = (c * u, s * d, r * q);
    assert((cu - sd) * rq == cu * rq - sd * rq) by (nonlinear_arith);
    lemma_product_bound(c * r, e2, 1_000_000 * r, 1_000_000);
    lemma_product_bound(e1, u * q, 1_000_000, 1_000_000 * q);
    lemma_product_bound(s * r, e4, 1_000_000 * r, 1_000_000);
    lemma_product_bound(e3, d * q, 1_000_000, 1_000_000 * q);
    assert(0 <= e1 * e2 <= 1_000_000_000_000) by (nonlinear_arith)
        requires
            0 <= e1 < 1_000_000,
            0 <= e2 < 1_000_000,
    ;
    assert(0 <= e3 * e4 <= 1_000_000_000_000) by (nonlinear_arith)
        requires
            0 <= e3 < 1_000_000,
            0 <= e4 < 1_000_000,
    ;
}

/// A point of a ring at the next heading lies further round than one at this heading, by more
/// than rounding can undo.
proof fn lemma_further_round(h: Heading, g: Heading, r: int, q: int, y: int, z: int)
    requires
        h.valid(),
        g.valid(),
        1 < r <= SHAPE_LIMIT,
        1 < q <= SHAPE_LIMIT,
        (h.cos * g.sin - h.sin * g.cos) * r >= 10_000_000_000_000,
        (h.cos * g.sin - h.sin * g.cos) * q >= 10_000_000_000_000,
    ensures
        turn(ring_spot(h, y, r), ring_spot(g, z, q)) > 0,
        turn(ring_spot(h, y, r), ring_spot(g, z, q)) > turn(ring_spot(h, y, r), ring_spot(h, z, q)),
        turn(ring_spot(h, y, r), ring_spot(g, z, q)) > turn(ring_spot(g, y, r), ring_spot(g, z, q)),
{
    let s = h.cos * g.sin - h.sin * g.cos;
    lemma_turn(h, g, r, q, y, z);
    lemma_turn(h, h, r, q, y, z);
    lemma_turn(g, g, r, q, y, z);
    assert(h.cos * h.sin == h.sin * h.cos) by (nonlinear_arith);
    assert(g.cos * g.sin == g.sin * g.cos) by (nonlinear_arith);
    assert((h.cos * h.sin - h.sin * h.cos) * (r * q) == 0 * (r * q));
    assert((g.cos * g.sin - g.sin * g.cos) * (r * q) == 0 * (r * q));
    assert(0 * (r * q) == 0);
    assert(s * (r * q) == (s * r) * q && s * (r * q) == (s * q) * r) by (nonlinear_arith);
    assert((s * r) * q >= 10_000_000_000_000 * q) by (nonlinear_arith)
        requires
            s * r >= 10_000_000_000_000,
            q > 0,
    ;
    assert((s * q) * r >= 10_000_000_000_000 * r) by (nonlinear_arith)
        requires
            s * q >= 10_000_000_000_000,
            r > 0,
    ;
}

pub(crate) proof fn lemma_no_turn(p: Point, q: Point)
    ensures
        turn(p, p) == 0,
        turn(p, q) == -turn(q, p),
{
    assert(p.x * p.z == p.z * p.x) by (nonlinear_arith);
    assert(p.x * q.z == q.z * p.x && p.z * q.x == q.x * p.z) by (nonlinear_arith);
}

/// A triangle between two levels, with two corners on the lower one.
proof fn lemma_low_wall(tri: Triangle, p: Point)
    requires
        tri.a.y == tri.c.y,
    ensures
        away(tri, p) == (tri.b.y - tri.a.y) * (turn(p, tri.c) - turn(p, tri.a)),
{
    let h = tri.b.y - tri.a.y;
    let (z, x) = (tri.c.z - tri.a.z, tri.c.x - tri.a.x);
    assert((tri.b.z - tri.a.z) * (tri.c.y - tri.a.y) == 0) by (nonlinear_arith)
        requires
            tri.c.y == tri.a.y,
    ;
    assert((tri.b.x - tri.a.x) * (tri.c.y - tri.a.y) == 0) by (nonlinear_arith)
        requires
            tri.c.y == tri.a.y,
    ;
    assert(tri.area_x() == h * z && tri.area_z() == -(h * x));
    let hx = h * x;
    assert((-hx) * p.z == -(hx * p.z)) by (nonlinear_arith);
    lemma_away(h, z, x, tri.c, tri.a, p);
}

/// A triangle between two levels, with two corners on the upper one.
proof fn lemma_high_wall(tri: Triangle, p: Point)
    requires
        tri.b.y == tri.c.y,
    ensures
        away(tri, p) == (tri.b.y - tri.a.y) * (turn(p, tri.c) - turn(p, tri.b)),
{
    let h = tri.b.y - tri.a.y;
    let (z, x) = (tri.c.z - tri.b.z, tri.c.x - tri.b.x);
    let (bz, cz, bx, cx) = (
        tri.b.z - tri.a.z,
        tri.c.z - tri.a.z,
        tri.b.x - tri.a.x,
        tri.c.x - tri.a.x,
    );
    assert(h * cz - bz * h == h * (cz - bz)) by (nonlinear_arith);
    assert(bx * h - h * cx == -(h * (cx - bx))) by (nonlinear_arith);
    assert(tri.area_x() == h * z && tri.area_z() == -(h * x));
    let hx = h * x;
    assert((-hx) * p.z == -(hx * p.z)) by (nonlinear_arith);
    lemma_away(h, z, x, tri.c, tri.b, p);
}

proof fn lemma_away(h: int, z: int, x: int, c: Point, a: Point, p: Point)
    requires
        z == c.z - a.z,
        x == c.x - a.x,
    ensures
        (h * z) * p.x - (h * x) * p.z == h * (turn(p, c) - turn(p, a)),
{
    assert((h * z) * p.x == h * (p.x * c.z - p.x * a.z)) by (nonlinear_arith)
        requires
            z == c.z - a.z,
    ;
    assert((h * x) * p.z == h * (p.z * c.x - p.z * a.x)) by (nonlinear_arith)
        requires
            x == c.x - a.x,
    ;
    let (u, v) = (p.x * c.z - p.x * a.z, p.z * c.x - p.z * a.x);
    assert(h * (u - v) == h * u - h * v) by (nonlinear_arith);
}

/// The bands of the wall rise.
proof fn lemma_band_rises(shape: Shape, j: int, rings: int)
    requires
        0 < rings <= shape.length,
    ensures
        ring_height(shape, j, rings) < ring_height(shape, j + 1, rings),
{
    let (l, n) = (shape.length as int, rings);
    let x = l * (2 * j - n);
    assert(l * (2 * (j + 1) - n) == x + 2 * l) by (nonlinear_arith)
        requires
            x == l * (2 * j - n),
    ;
    assert((x + 2 * l) / (2 * n) >= x / (2 * n) + 1) by (nonlinear_arith)
        requires
            0 < n <= l,
    ;
}

/// The radius of every ring lies between those of the two rims.
proof fn lemma_between_rims(shape: Shape, j: int, rings: int, s: int)
    requires
        shape.valid(),
        shape.r_top > RIM_EPSILON,
        shape.r_bottom > RIM_EPSILON,
        0 <= j <= rings,
        0 < rings,
        s * shape.r_top >= 10_000_000_000_000,
        s * shape.r_bottom >= 10_000_000_000_000,
    ensures
        1 < ring_radius(shape, j, rings) <= SHAPE_LIMIT,
        s * ring_radius(shape, j, rings) >= 10_000_000_000_000,
{
    let (a, b) = (shape.r_bottom as int, shape.r_top as int);
    let r = ring_radius(shape, j, rings);
    lemma_ring_radius(shape, j, rings);
    let gap = if a <= b { b - a } else { a - b };
    assert(0 <= (gap * j) / rings <= gap) by (nonlinear_arith)
        requires
            0 <= gap,
            0 <= j <= rings,
            0 < rings,
    ;
    assert(s > 0) by (nonlinear_arith)
        requires
            s * a >= 10_000_000_000_000,
            a > 0,
    ;
    let least = if a <= b { a } else { b };
    assert(s * r >= s * least) by (nonlinear_arith)
        requires
            r >= least,
            s > 0,
    ;
}

/// The wall faces away from the axis.
proof fn lemma_wall_faces_out(
    shape: Shape,
    headings: Seq<Heading>,
    rings: int,
    j: int,
    i: int,
    s: int,
)
    requires
        shape.valid(),
        shape.r_top > RIM_EPSILON,
        shape.r_bottom > RIM_EPSILON,
        headings_valid(headings),
        winds(shape, headings),
        0 < rings <= shape.length,
        0 <= j < rings,
        0 <= i < headings.len(),
        0 <= s < 2,
    ensures
        faces_out(wall_piece(shape, headings, rings, j, i, s)),
{
    reveal(faces_out);
    let n = headings.len() as int;
    vstd::arithmetic::div_mod::lemma_small_mod(i as nat, n as nat);
    let (h, g) = (headings[i], headings[(i + 1) % n]);
    assert(h.valid() && g.valid());
    let w = h.cos * g.sin - h.sin * g.cos;
    lemma_band_rises(shape, j, rings);
    lemma_ring_height(shape, j, rings);
    lemma_ring_height(shape, j + 1, rings);
    lemma_between_rims(shape, j, rings, w);
    lemma_between_rims(shape, j + 1, rings, w);
    let (y, z) = (ring_height(shape, j, rings), ring_height(shape, j + 1, rings));
    let (r, q) = (ring_radius(shape, j, rings), ring_radius(shape, j + 1, rings));
    let tri = wall_piece(shape, headings, rings, j, i, s);
    lemma_further_round(h, g, r, r, y, y);
    lemma_further_round(h, g, q, q, z, z);
    lemma_further_round(h, g, q, r, z, y);
    let up = z - y;
    if s == 0 {
        lemma_low_wall(tri, tri.a);
        lemma_low_wall(tri, tri.b);
        lemma_low_wall(tri, tri.c);
        lemma_no_turn(tri.a, tri.c);
        lemma_no_turn(tri.c, tri.a);
        lemma_rises(up, turn(tri.a, tri.c));
        lemma_rises(up, turn(tri.b, tri.c) - turn(tri.b, tri.a));
    } else {
        lemma_high_wall(tri, tri.a);
        lemma_high_wall(tri, tri.b);
        lemma_high_wall(tri, tri.c);
        lemma_no_turn(tri.b, tri.c);
        lemma_no_turn(tri.c, tri.b);
        lemma_no_turn(tri.a, tri.b);
        lemma_no_turn(tri.a, tri.c);
        lemma_rises(up, turn(tri.b, tri.c));
        lemma_rises(up, turn(tri.a, tri.c) - turn(tri.a, tri.b));
    }
}

proof fn lemma_rises(a: int, b: int)
    requires
        a > 0,
        b > 0,
    ensures
        a * b > 0,
{
    assert(a * b > 0) by (nonlinear_arith)
        requires
            a > 0,
            b > 0,
    ;
}

/// The upper end faces up.
proof fn lemma_top_faces_out(shape: Shape, headings: Seq<Heading>, rings: int, i: int)
    requires
        shape.valid(),
        shape.r_top > RIM_EPSILON,
        shape.r_bottom > RIM_EPSILON,
        headings_valid(headings),
        winds(shape, headings),
        0 < rings,
        0 <= i < headings.len(),
    ensures
        faces_out(top_piece(shape, headings, rings, i)),
{
    reveal(faces_out);
    let n = headings.len() as int;
    vstd::arithmetic::div_mod::lemma_small_mod(i as nat, n as nat);
    let (h, g) = (headings[i], headings[(i + 1) % n]);
    assert(h.valid() && g.valid());
    let tri = top_piece(shape, headings, rings, i);
    lemma_between_rims(shape, rings, rings, h.cos * g.sin - h.sin * g.cos);
    lemma_ring_height(shape, rings, rings);
    let (r, y) = (ring_radius(shape, rings, rings), ring_height(shape, rings, rings));
    let l = shape.length as int;
    assert(y >= 0) by (nonlinear_arith)
        requires
            y == (l * (2 * rings - rings)) / (2 * rings),
            l > 0,
            rings > 0,
    ;
    lemma_further_round(h, g, r, r, y, y);
    lemma_cap(tri);
    lemma_no_turn(tri.b, tri.c);
}

/// The lower end faces down.
proof fn lemma_bottom_faces_out(shape: Shape, headings: Seq<Heading>, rings: int, i: int)
    requires
        shape.valid(),
        shape.r_top > RIM_EPSILON,
        shape.r_bottom > RIM_EPSILON,
        headings_valid(headings),
        winds(shape, headings),
        0 < rings,
        0 <= i < headings.len(),
    ensures
        faces_out(bottom_piece(shape, headings, rings, i)),
{
    reveal(faces_out);
    let n = headings.len() as int;
    vstd::arithmetic::div_mod::lemma_small_mod(i as nat, n as nat);
    let (h, g) = (headings[i], headings[(i + 1) % n]);
    assert(h.valid() && g.valid());
    let tri = bottom_piece(shape, headings, rings, i);
    lemma_between_rims(shape, 0, rings, h.cos * g.sin - h.sin * g.cos);
    lemma_ring_height(shape, 0, rings);
    let (r, y) = (ring_radius(shape, 0, rings), ring_height(shape, 0, rings));
    let l = shape.length as int;
    assert(y <= 0) by (nonlinear_arith)
        requires
            y == (l * (2 * 0 - rings)) / (2 * rings),
            l > 0,
            rings > 0,
    ;
    lemma_further_round(h, g, r, r, y, y);
    lemma_cap(tri);
}

/// Triangle `m` of the ends.
pub(crate) proof fn lemma_cap_at(shape: Shape, headings: Seq<Heading>, rings: int, m: int)
    requires
        shape.r_top > RIM_EPSILON,
        shape.r_bottom > RIM_EPSILON,
        0 <= m < 2 * headings.len(),
    ensures
        caps(shape, headings, rings, headings.len() as int).len() == 2 * headings.len(),
        caps(shape, headings, rings, headings.len() as int)[m] == (if m % 2 == 0 {
            top_piece(shape, headings, rings, m / 2)
        } else {
            bottom_piece(shape, headings, rings, m / 2)
        }),
{
    let c = caps(shape, headings, rings, headings.len() as int);
    lemma_caps_index(shape, headings, rings, headings.len() as int);
    let i = m / 2;
    if m % 2 == 0 {
        assert(c[2 * i] == top_piece(shape, headings, rings, i));
    } else {
        assert(c[2 * i + 1] == bottom_piece(shape, headings, rings, i));
    }
}

/// The ends face out of the body.
proof fn lemma_ends_face_out(shape: Shape, headings: Seq<Heading>, rings: int, m: int)
    requires
        shape.valid(),
        shape.r_top > RIM_EPSILON,
        shape.r_bottom > RIM_EPSILON,
        headings_valid(headings),
        winds(shape, headings),
        0 < rings,
        0 <= m < 2 * headings.len(),
    ensures
        faces_out(caps(shape, headings, rings, headings.len() as int)[m]),
{
    lemma_cap_at(shape, headings, rings, m);
    if m % 2 == 0 {
        lemma_top_faces_out(shape, headings, rings, m / 2);
    } else {
        lemma_bottom_faces_out(shape, headings, rings, m / 2);
    }
}

/// Every triangle of the hull faces out of the body.
#[verifier::spinoff_prover]
#[verifier::rlimit(40)]
pub proof fn law_hull_faces_outward(shape: Shape, headings: Seq<Heading>, rings: int, k: int)
    requires
        shape.valid(),
        shape.r_top > RIM_EPSILON,
        shape.r_bottom > RIM_EPSILON,
        headings_valid(headings),
        winds(shape, headings),
        0 < rings <= shape.length,
        0 <= k < hull(shape, headings, rings).len(),
    ensures
        faces_out(hull(shape, headings, rings)[k]),
{
    let w = wall(shape, headings, rings);
    let c = caps(shape, headings, rings, headings.len() as int);
    if k < w.len() {
        let (j, i, s) = lemma_wall_piece(shape, headings, rings, k);
        lemma_wall_faces_out(shape, headings, rings, j, i, s);
        assert((w + c)[k] == w[k]);
    } else {
        lemma_cap_at(shape, headings, rings, 0);
        lemma_ends_face_out(shape, headings, rings, k - w.len());
        assert((w + c)[k] == c[k - w.len()]);
    }
}

/// A level triangle at the axis.
proof fn lemma_cap(tri: Triangle)
    requires
        tri.a.x == 0,
        tri.a.z == 0,
    ensures
        tri.area_y() == -turn(tri.b, tri.c),
{
    assert(tri.b.z * tri.c.x == (tri.b.z - tri.a.z) * (tri.c.x - tri.a.x));
    assert(tri.b.x * tri.c.z == (tri.b.x - tri.a.x) * (tri.c.z - tri.a.z));
}

// ---- The volume of a sealed hull -----------------------------------------------------

/// The directed edges of the triangles.
pub open spec fn edges(tris: Seq<Triangle>) -> Seq<(Point, Point)>
    decreases tris.len(),
{
    if tris.len() == 0 {
        Seq::empty()
    } else {
        let t = tris.last();
        edges(tris.drop_last()).push((t.a, t.b)).push((t.b, t.c)).push((t.c, t.a))
    }
}

/// Whether every edge is run through as often one way as the other.
pub open spec fn evens_out(e: Seq<(Point, Point)>) -> bool {
    forall|p: Point, q: Point| #[trigger]
        e.to_multiset().count((p, q)) == e.to_multiset().count((q, p))
}

/// Whether the triangles enclose a solid.
pub open spec fn sealed(tris: Seq<Triangle>) -> bool {
    evens_out(edges(tris))
}

/// The sum of `f` over the edges.
pub open spec fn total(e: Seq<(Point, Point)>, f: spec_fn(Point, Point) -> int) -> int
    decreases e.len(),
{
    if e.len() == 0 {
        0
    } else {
        total(e.drop_last(), f) + f(e.last().0, e.last().1)
    }
}

/// Whether `f` of an edge run through the other way is the opposite.
pub open spec fn signed(f: spec_fn(Point, Point) -> int) -> bool {
    forall|p: Point, q: Point| #[trigger] f(p, q) == -f(q, p)
}

proof fn lemma_total_without(e: Seq<(Point, Point)>, f: spec_fn(Point, Point) -> int, i: int)
    requires
        0 <= i < e.len(),
    ensures
        total(e, f) == total(e.remove(i), f) + f(e[i].0, e[i].1),
    decreases e.len(),
{
    if i == e.len() - 1 {
        assert(e.remove(i) =~= e.drop_last());
    } else {
        lemma_total_without(e.drop_last(), f, i);
        assert(e.remove(i).drop_last() =~= e.drop_last().remove(i));
        assert(e.remove(i).last() == e.last());
    }
}

proof fn lemma_total_push(e: Seq<(Point, Point)>, x: (Point, Point), f: spec_fn(Point, Point) -> int)
    ensures
        total(e.push(x), f) == total(e, f) + f(x.0, x.1),
{
    assert(e.push(x).drop_last() =~= e);
}

proof fn lemma_total_of_triangle(
    e: Seq<(Point, Point)>,
    t: Triangle,
    f: spec_fn(Point, Point) -> int,
)
    ensures
        total(e.push((t.a, t.b)).push((t.b, t.c)).push((t.c, t.a)), f) == total(e, f) + f(t.a, t.b)
            + f(t.b, t.c) + f(t.c, t.a),
{
    let one = e.push((t.a, t.b));
    let two = one.push((t.b, t.c));
    lemma_total_push(e, (t.a, t.b), f);
    lemma_total_push(one, (t.b, t.c), f);
    lemma_total_push(two, (t.c, t.a), f);
}

/// Over edges that even out, whatever has a sign comes to nothing.
proof fn lemma_evens_out(e: Seq<(Point, Point)>, f: spec_fn(Point, Point) -> int)
    requires
        evens_out(e),
        signed(f),
    ensures
        total(e, f) == 0,
    decreases e.len(),
{
    broadcast use vstd::seq_lib::group_to_multiset_ensures;

    if e.len() > 0 {
        let n = e.len() - 1;
        let (p, q) = e.last();
        let rest = e.drop_last();
        assert(rest =~= e.remove(n));
        assert(rest.to_multiset() =~= e.to_multiset().remove((p, q)));
        assert(f(p, q) == -f(q, p));
        if p == q {
            assert(evens_out(rest)) by {
                assert forall|x: Point, y: Point| #[trigger]
                    rest.to_multiset().count((x, y)) == rest.to_multiset().count((y, x)) by {
                    assert(e.to_multiset().count((x, y)) == e.to_multiset().count((y, x)));
                }
            }
            lemma_evens_out(rest, f);
        } else {
            assert(e[n] == (p, q));
            assert(e.contains((p, q)));
            assert(e.to_multiset().count((p, q)) > 0);
            assert(e.to_multiset().count((p, q)) == e.to_multiset().count((q, p)));
            assert(rest.to_multiset().count((q, p)) == e.to_multiset().count((q, p)));
            assert(rest.contains((q, p)));
            let j = choose|j: int| 0 <= j < rest.len() && rest[j] == (q, p);
            let less = rest.remove(j);
            assert(less.to_multiset() =~= rest.to_multiset().remove((q, p)));
            assert(evens_out(less)) by {
                assert forall|x: Point, y: Point| #[trigger]
                    less.to_multiset().count((x, y)) == less.to_multiset().count((y, x)) by {
                    assert(e.to_multiset().count((x, y)) == e.to_multiset().count((y, x)));
                }
            }
            lemma_total_without(rest, f, j);
            lemma_evens_out(less, f);
        }
    }
}

/// Whether every triangle has enough area to count towards a volume.
pub open spec fn all_count(tris: Seq<Triangle>) -> bool {
    forall|i: int| 0 <= i < tris.len() ==> counts(#[trigger] tris[i])
}

/// Twice the area of the triangles, as far as they face up.
spec fn upward_area(tris: Seq<Triangle>) -> int
    decreases tris.len(),
{
    if tris.len() == 0 {
        0
    } else {
        upward_area(tris.drop_last()) + tris.last().area_y()
    }
}

proof fn lemma_area_by_edges(tris: Seq<Triangle>)
    ensures
        upward_area(tris) == total(edges(tris), |p: Point, q: Point| -turn(p, q)),
    decreases tris.len(),
{
    let f = |p: Point, q: Point| -turn(p, q);
    if tris.len() > 0 {
        let (t, before) = (tris.last(), edges(tris.drop_last()));
        lemma_area_by_edges(tris.drop_last());
        lemma_total_of_triangle(before, t, f);
        lemma_area_of_edges(t);
    }
}

proof fn lemma_area_of_edges(t: Triangle)
    ensures
        t.area_y() == -turn(t.a, t.b) - turn(t.b, t.c) - turn(t.c, t.a),
{
    let (ax, az, bx, bz, cx, cz) = (
        t.a.x as int,
        t.a.z as int,
        t.b.x as int,
        t.b.z as int,
        t.c.x as int,
        t.c.z as int,
    );
    assert((bz - az) * (cx - ax) == bz * cx - bz * ax - az * cx + az * ax) by (nonlinear_arith);
    assert((bx - ax) * (cz - az) == bx * cz - bx * az - ax * cz + ax * az) by (nonlinear_arith);
    assert(bz * ax == ax * bz && az * ax == ax * az && bx * az == az * bx) by (nonlinear_arith);
    assert(bz * cx == cx * bz && az * cx == cx * az && bx * cz == cz * bx) by (nonlinear_arith);
    assert(ax * cz == cz * ax) by (nonlinear_arith);
}

/// A sealed hull faces up as much as it faces down.
proof fn lemma_no_net_area(tris: Seq<Triangle>)
    requires
        sealed(tris),
    ensures
        upward_area(tris) == 0,
{
    let f = |p: Point, q: Point| -turn(p, q);
    assert(signed(f)) by {
        assert forall|p: Point, q: Point| #[trigger] f(p, q) == -f(q, p) by {
            lemma_no_turn(p, q);
        }
    }
    lemma_area_by_edges(tris);
    lemma_evens_out(edges(tris), f);
}

/// What a change of the level from which heights are taken adds to a volume.
proof fn lemma_volume_from(tris: Seq<Triangle>, k: i64, l: i64)
    requires
        all_count(tris),
    ensures
        sixfold_volume(tris, k) == sixfold_volume(tris, l) + 3 * (l - k) * upward_area(tris),
    decreases tris.len(),
{
    if tris.len() > 0 {
        let (t, before) = (tris.last(), tris.drop_last());
        assert(all_count(before)) by {
            assert forall|i: int| 0 <= i < before.len() implies counts(#[trigger] before[i]) by {
                assert(before[i] == tris[i]);
            }
        }
        assert(counts(tris[tris.len() - 1]));
        lemma_volume_from(before, k, l);
        let (y, a, u) = (t.a.y + t.b.y + t.c.y, t.area_y(), upward_area(before));
        assert((y - 3 * k) * a == (y - 3 * l) * a + 3 * (l - k) * a) by (nonlinear_arith);
        assert(3 * (l - k) * (u + a) == 3 * (l - k) * u + 3 * (l - k) * a) by (nonlinear_arith);
    } else {
        assert(3 * (l - k) * 0 == 0);
    }
}

/// What is left of the triangles under the water.
pub open spec fn clipped(tris: Seq<Triangle>, level: i64) -> Seq<Triangle>
    decreases tris.len(),
{
    if tris.len() == 0 {
        Seq::empty()
    } else {
        clipped(tris.drop_last(), level) + submerged(tris.last(), level)
    }
}

/// Whether a triangle lies wholly under the water.
pub open spec fn covered(tri: Triangle, level: i64) -> bool {
    below(tri.a, level) && below(tri.b, level) && below(tri.c, level)
}

/// Whether a triangle lies wholly above the water.
pub open spec fn dry(tri: Triangle, level: i64) -> bool {
    !below(tri.a, level) && !below(tri.b, level) && !below(tri.c, level)
}

proof fn lemma_clipped_whole(tris: Seq<Triangle>, level: i64)
    requires
        forall|i: int| 0 <= i < tris.len() ==> covered(#[trigger] tris[i], level),
    ensures
        clipped(tris, level) == tris,
    decreases tris.len(),
{
    if tris.len() > 0 {
        let before = tris.drop_last();
        assert forall|i: int| 0 <= i < before.len() implies covered(#[trigger] before[i], level) by {
            assert(before[i] == tris[i]);
        }
        lemma_clipped_whole(before, level);
        assert(covered(tris[tris.len() - 1], level));
        law_clipping_is_all_or_nothing_off_the_waterline(tris.last(), level);
        assert(before + seq![tris.last()] =~= tris);
    }
}

/// A body above the water displaces nothing of it.
pub proof fn law_a_dry_hull_displaces_nothing(tris: Seq<Triangle>, level: i64)
    requires
        forall|i: int| 0 <= i < tris.len() ==> dry(#[trigger] tris[i], level),
    ensures
        clipped(tris, level) == Seq::<Triangle>::empty(),
        sixfold_volume(clipped(tris, level), level) == 0,
    decreases tris.len(),
{
    if tris.len() > 0 {
        let before = tris.drop_last();
        assert forall|i: int| 0 <= i < before.len() implies dry(#[trigger] before[i], level) by {
            assert(before[i] == tris[i]);
        }
        law_a_dry_hull_displaces_nothing(before, level);
        assert(dry(tris[tris.len() - 1], level));
        law_clipping_is_all_or_nothing_off_the_waterline(tris.last(), level);
        assert(clipped(tris, level) =~= Seq::<Triangle>::empty());
    }
}

/// A sealed hull under water displaces the same volume at every depth.
pub proof fn law_a_sunken_hull_displaces_its_volume(tris: Seq<Triangle>, k: i64, l: i64)
    requires
        sealed(tris),
        all_count(tris),
        forall|i: int| 0 <= i < tris.len() ==> covered(#[trigger] tris[i], k),
        forall|i: int| 0 <= i < tris.len() ==> covered(#[trigger] tris[i], l),
    ensures
        sixfold_volume(clipped(tris, k), k) == sixfold_volume(clipped(tris, l), l),
{
    lemma_clipped_whole(tris, k);
    lemma_clipped_whole(tris, l);
    lemma_volume_from(tris, k, l);
    lemma_no_net_area(tris);
    assert(3 * (l - k) * 0 == 0);
}

/// Whether a triangle lies in the water's surface.
pub open spec fn afloat(tri: Triangle, level: i64) -> bool {
    tri.a.y == level && tri.b.y == level && tri.c.y == level
}

proof fn lemma_lid_adds_nothing(tris: Seq<Triangle>, lid: Seq<Triangle>, level: i64)
    requires
        forall|i: int| 0 <= i < lid.len() ==> afloat(#[trigger] lid[i], level),
    ensures
        sixfold_volume(tris + lid, level) == sixfold_volume(tris, level),
    decreases lid.len(),
{
    if lid.len() == 0 {
        assert(tris + lid =~= tris);
    } else {
        let (before, t) = (lid.drop_last(), lid.last());
        assert forall|i: int| 0 <= i < before.len() implies afloat(#[trigger] before[i], level) by {
            assert(before[i] == lid[i]);
        }
        assert(afloat(lid[lid.len() - 1], level));
        lemma_lid_adds_nothing(tris, before, level);
        assert((tris + lid).drop_last() =~= tris + before);
        assert((tris + lid).last() == t);
        assert((t.a.y + t.b.y + t.c.y - 3 * level) * t.area_y() == 0) by (nonlinear_arith)
            requires
                t.a.y == level,
                t.b.y == level,
                t.c.y == level,
        ;
    }
}

/// No lid is needed at the waterline: the open shell under the water has the volume of the
/// solid that any level lid on it encloses, from whatever height that is reckoned.
pub proof fn law_no_lid_is_needed(shell: Seq<Triangle>, lid: Seq<Triangle>, level: i64, k: i64)
    requires
        forall|i: int| 0 <= i < lid.len() ==> afloat(#[trigger] lid[i], level),
        sealed(shell + lid),
        all_count(shell + lid),
    ensures
        sixfold_volume(shell, level) == sixfold_volume(shell + lid, k),
{
    lemma_lid_adds_nothing(shell, lid, level);
    lemma_volume_from(shell + lid, level, k);
    lemma_no_net_area(shell + lid);
    assert(3 * (k - level) * 0 == 0);
}

// ---- The hull of the body is sealed --------------------------------------------------

/// What an edge counts towards the edge from `p` to `q`.
spec fn marks(p: Point, q: Point) -> spec_fn(Point, Point) -> int {
    |x: Point, y: Point|
        (if x == p && y == q {
            1int
        } else {
            0
        }) - (if x == q && y == p {
            1int
        } else {
            0
        })
}

proof fn lemma_total_is_count(e: Seq<(Point, Point)>, p: Point, q: Point)
    ensures
        total(e, marks(p, q)) == e.to_multiset().count((p, q)) - e.to_multiset().count((q, p)),
    decreases e.len(),
{
    broadcast use vstd::seq_lib::group_to_multiset_ensures;

    if e.len() > 0 {
        let rest = e.drop_last();
        lemma_total_is_count(rest, p, q);
        assert(rest.push(e.last()) =~= e);
        assert(e.to_multiset() =~= rest.to_multiset().insert(e.last()));
    } else {
        assert(e.to_multiset().len() == 0);
        if e.to_multiset().count((p, q)) > 0 {
            assert(e.contains((p, q)));
        }
        if e.to_multiset().count((q, p)) > 0 {
            assert(e.contains((q, p)));
        }
    }
}

/// What has a sign comes to nothing over the triangles.
spec fn cancels(tris: Seq<Triangle>) -> bool {
    forall|f: spec_fn(Point, Point) -> int| signed(f) ==> #[trigger] total(edges(tris), f) == 0
}

proof fn lemma_sealed_if_cancels(tris: Seq<Triangle>)
    requires
        cancels(tris),
    ensures
        sealed(tris),
{
    let e = edges(tris);
    assert forall|p: Point, q: Point| #[trigger]
        e.to_multiset().count((p, q)) == e.to_multiset().count((q, p)) by {
        let f = marks(p, q);
        assert(signed(f));
        assert(total(edges(tris), f) == 0);
        lemma_total_is_count(e, p, q);
    }
}

/// What a triangle adds to a total.
spec fn flow(t: Triangle, f: spec_fn(Point, Point) -> int) -> int {
    f(t.a, t.b) + f(t.b, t.c) + f(t.c, t.a)
}

/// What the first `m` triangles add to a total.
spec fn flow_upto(tris: Seq<Triangle>, m: int, f: spec_fn(Point, Point) -> int) -> int
    decreases m,
{
    if m <= 0 {
        0
    } else {
        flow_upto(tris, m - 1, f) + flow(tris[m - 1], f)
    }
}

proof fn lemma_flow_prefix(
    tris: Seq<Triangle>,
    more: Seq<Triangle>,
    m: int,
    f: spec_fn(Point, Point) -> int,
)
    requires
        m <= tris.len(),
    ensures
        flow_upto(tris + more, m, f) == flow_upto(tris, m, f),
    decreases m,
{
    if m > 0 {
        lemma_flow_prefix(tris, more, m - 1, f);
    }
}

proof fn lemma_flow_suffix(
    tris: Seq<Triangle>,
    more: Seq<Triangle>,
    m: int,
    f: spec_fn(Point, Point) -> int,
)
    requires
        0 <= m <= more.len(),
    ensures
        flow_upto(tris + more, tris.len() + m, f) == flow_upto(tris, tris.len() as int, f)
            + flow_upto(more, m, f),
    decreases m,
{
    if m == 0 {
        lemma_flow_prefix(tris, more, tris.len() as int, f);
    } else {
        lemma_flow_suffix(tris, more, m - 1, f);
        assert((tris + more)[tris.len() + m - 1] == more[m - 1]);
    }
}

proof fn lemma_total_is_flow(tris: Seq<Triangle>, f: spec_fn(Point, Point) -> int)
    ensures
        total(edges(tris), f) == flow_upto(tris, tris.len() as int, f),
    decreases tris.len(),
{
    if tris.len() > 0 {
        let before = tris.drop_last();
        lemma_total_is_flow(before, f);
        lemma_total_of_triangle(edges(before), tris.last(), f);
        lemma_flow_prefix(before, seq![tris.last()], before.len() as int, f);
        assert(before + seq![tris.last()] =~= tris);
    }
}

/// The frustum's net of points, and what an edge function makes of it.
spec fn upward(
    shape: Shape,
    headings: Seq<Heading>,
    rings: int,
    f: spec_fn(Point, Point) -> int,
    i: int,
    j: int,
) -> int {
    f(rim(shape, headings, i, j, rings), rim(shape, headings, i, j + 1, rings))
}

/// The first `i` edges of ring `j`.
spec fn ring_flow(
    shape: Shape,
    headings: Seq<Heading>,
    rings: int,
    f: spec_fn(Point, Point) -> int,
    i: int,
    j: int,
) -> int
    decreases i,
{
    if i <= 0 {
        0
    } else {
        ring_flow(shape, headings, rings, f, i - 1, j) + f(
            rim(shape, headings, i - 1, j, rings),
            rim(shape, headings, i, j, rings),
        )
    }
}

/// The ring closes.
proof fn lemma_rim_closes(shape: Shape, headings: Seq<Heading>, rings: int, j: int)
    requires
        headings.len() > 0,
    ensures
        rim(shape, headings, headings.len() as int, j, rings) == rim(shape, headings, 0, j, rings),
{
    let n = headings.len() as int;
    vstd::arithmetic::div_mod::lemma_mod_self_0(n);
    vstd::arithmetic::div_mod::lemma_small_mod(0, n as nat);
}

/// The wall up to quad `i` of band `j`.
proof fn lemma_wall_flow(
    shape: Shape,
    headings: Seq<Heading>,
    rings: int,
    f: spec_fn(Point, Point) -> int,
    j: int,
    i: int,
)
    requires
        headings_valid(headings),
        signed(f),
        0 <= j <= rings,
        j == rings ==> i == 0,
        0 <= i <= headings.len(),
    ensures
        ({
            let n = headings.len() as int;
            flow_upto(wall(shape, headings, rings), 2 * n * j + 2 * i, f) == ring_flow(
                shape,
                headings,
                rings,
                f,
                n,
                j,
            ) - ring_flow(shape, headings, rings, f, n, 0) + if i == 0 {
                0
            } else {
                upward(shape, headings, rings, f, 0, j) - upward(shape, headings, rings, f, i, j)
                    + ring_flow(shape, headings, rings, f, i, j + 1) - ring_flow(
                    shape,
                    headings,
                    rings,
                    f,
                    i,
                    j,
                )
            }
        }),
    decreases j, i,
{
    let n = headings.len() as int;
    let w = wall(shape, headings, rings);
    let k = 2 * n * j + 2 * i;
    if i == 0 {
        if j > 0 {
            lemma_wall_flow(shape, headings, rings, f, j - 1, n);
            lemma_rim_closes(shape, headings, rings, j - 1);
            lemma_rim_closes(shape, headings, rings, j);
            assert(2 * n * (j - 1) + 2 * n == 2 * n * j) by (nonlinear_arith);
        } else {
            assert(2 * n * j == 0) by (nonlinear_arith)
                requires
                    j == 0,
            ;
        }
    } else {
        lemma_wall_flow(shape, headings, rings, f, j, i - 1);
        lemma_wall_index(shape, headings, rings, j, i - 1, 0);
        lemma_wall_index(shape, headings, rings, j, i - 1, 1);
        let (low, high) = (w[k - 2], w[k - 1]);
        assert(flow_upto(w, k - 1, f) == flow_upto(w, k - 2, f) + flow(low, f));
        assert(flow_upto(w, k, f) == flow_upto(w, k - 1, f) + flow(high, f));
        assert(low == wall_piece(shape, headings, rings, j, i - 1, 0));
        assert(high == wall_piece(shape, headings, rings, j, i - 1, 1));
        assert(f(low.b, low.c) == -f(low.c, low.b));
        assert(f(low.c, low.a) == -f(low.a, low.c));
        assert(f(high.c, high.a) == -f(high.a, high.c));
        assert(high.a == low.c && high.b == low.b);
    }
}

/// The ends up to heading `i`.
proof fn lemma_caps_flow(
    shape: Shape,
    headings: Seq<Heading>,
    rings: int,
    f: spec_fn(Point, Point) -> int,
    i: int,
)
    requires
        shape.r_top > RIM_EPSILON,
        shape.r_bottom > RIM_EPSILON,
        signed(f),
        0 <= i,
    ensures
        ({
            let c = caps(shape, headings, rings, i);
            let top = top_piece(shape, headings, rings, 0).a;
            let low = bottom_piece(shape, headings, rings, 0).a;
            flow_upto(c, c.len() as int, f) == f(top, rim(shape, headings, i, rings, rings)) - f(
                top,
                rim(shape, headings, 0, rings, rings),
            ) - ring_flow(shape, headings, rings, f, i, rings) + f(
                low,
                rim(shape, headings, 0, 0, rings),
            ) - f(low, rim(shape, headings, i, 0, rings)) + ring_flow(
                shape,
                headings,
                rings,
                f,
                i,
                0,
            )
        }),
    decreases i,
{
    let c = caps(shape, headings, rings, i);
    if i > 0 {
        let before = caps(shape, headings, rings, i - 1);
        lemma_caps_flow(shape, headings, rings, f, i - 1);
        let t = top_piece(shape, headings, rings, i - 1);
        let b = bottom_piece(shape, headings, rings, i - 1);
        assert(c =~= before + seq![t, b]);
        let m = before.len() as int;
        lemma_flow_prefix(before, seq![t, b], m, f);
        assert(c[m] == t && c[m + 1] == b);
        assert(flow_upto(c, m + 1, f) == flow_upto(c, m, f) + flow(t, f));
        assert(flow_upto(c, m + 2, f) == flow_upto(c, m + 1, f) + flow(b, f));
        assert(f(t.b, t.c) == -f(t.c, t.b));
        assert(f(t.c, t.a) == -f(t.a, t.c));
        assert(f(b.c, b.a) == -f(b.a, b.c));
    }
}

/// The hull of a body whose two ends both have width encloses it: every edge is run through
/// as often one way as the other.
pub proof fn law_hull_is_sealed(shape: Shape, headings: Seq<Heading>, rings: int)
    requires
        shape.r_top > RIM_EPSILON,
        shape.r_bottom > RIM_EPSILON,
        headings_valid(headings),
        0 < rings,
    ensures
        sealed(hull(shape, headings, rings)),
{
    let n = headings.len() as int;
    let (h, w) = (hull(shape, headings, rings), wall(shape, headings, rings));
    let c = caps(shape, headings, rings, n);
    assert forall|f: spec_fn(Point, Point) -> int| signed(f) implies #[trigger] total(edges(h), f)
        == 0 by {
        lemma_total_is_flow(h, f);
        lemma_flow_suffix(w, c, c.len() as int, f);
        lemma_wall_flow(shape, headings, rings, f, rings, 0);
        assert(2 * n * rings == w.len());
        lemma_caps_flow(shape, headings, rings, f, n);
        lemma_rim_closes(shape, headings, rings, 0);
        lemma_rim_closes(shape, headings, rings, rings);
    }
    lemma_sealed_if_cancels(h);
}

/// The triangles as a pose puts them into the world.
pub open spec fn placed_hull(tris: Seq<Triangle>, pos: Point, rot: Rotation) -> Seq<Triangle> {
    tris.map_values(|t: Triangle| t.placed(pos, rot))
}

proof fn lemma_flow_placed(
    tris: Seq<Triangle>,
    pos: Point,
    rot: Rotation,
    f: spec_fn(Point, Point) -> int,
    m: int,
)
    requires
        m <= tris.len(),
    ensures
        flow_upto(placed_hull(tris, pos, rot), m, f) == flow_upto(
            tris,
            m,
            |p: Point, q: Point| f(moved(pos, rot.of(p)), moved(pos, rot.of(q))),
        ),
    decreases m,
{
    if m > 0 {
        lemma_flow_placed(tris, pos, rot, f, m - 1);
        assert(placed_hull(tris, pos, rot)[m - 1] == tris[m - 1].placed(pos, rot));
    }
}

/// A sealed hull stays sealed wherever it is put and however it is turned.
pub proof fn law_a_moved_hull_stays_sealed(tris: Seq<Triangle>, pos: Point, rot: Rotation)
    requires
        sealed(tris),
    ensures
        sealed(placed_hull(tris, pos, rot)),
{
    let world = placed_hull(tris, pos, rot);
    assert forall|f: spec_fn(Point, Point) -> int| signed(f) implies #[trigger] total(
        edges(world),
        f,
    ) == 0 by {
        let g = |p: Point, q: Point| f(moved(pos, rot.of(p)), moved(pos, rot.of(q)));
        lemma_total_is_flow(world, f);
        lemma_flow_placed(tris, pos, rot, f, tris.len() as int);
        lemma_total_is_flow(tris, g);
        assert(signed(g)) by {
            assert forall|p: Point, q: Point| #[trigger] g(p, q) == -g(q, p) by {
                assert(f(moved(pos, rot.of(p)), moved(pos, rot.of(q))) == -f(
                    moved(pos, rot.of(q)),
                    moved(pos, rot.of(p)),
                ));
            }
        }
        lemma_evens_out(edges(tris), g);
    }
    lemma_sealed_if_cancels(world);
}

} // verus!
