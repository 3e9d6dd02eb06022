//! A body that floats tilted: its hull still faces away from its middle, and it displaces no less
//! when the water rises.

use super::centre::{law_hull_faces_away_from_its_middle, middle, roomy};
use super::hydro::{caps, headings_valid, hull, lemma_wall_piece, rim, ring_height, ring_radius};
use super::hydro::{sixfold_volume, turned, wall};
use super::hydro::{Heading, Rotation, Shape, Triangle, HULL_LIMIT, POSITION_LIMIT, SHAPE_LIMIT};
use super::pieces::near;
use super::rising::{law_rising_water_displaces_no_less, losses, measured, slack};
use super::solid::{clipped, law_a_moved_hull_stays_sealed, law_hull_is_sealed, lemma_cap_at};
use super::solid::placed_hull;
use super::volume::{cone, dent, dents, lemma_cone_areas, lemma_turns};
use crate::geom::{lemma_product_bound, Point};
use vstd::prelude::*;

verus! {

// ---- Determinants --------------------------------------------------------------------

/// The volume that three vectors span.
pub open spec fn det(a: (int, int, int), b: (int, int, int), c: (int, int, int)) -> int {
    a.0 * (b.1 * c.2 - b.2 * c.1) + a.1 * (b.2 * c.0 - b.0 * c.2) + a.2 * (b.0 * c.1 - b.1 * c.0)
}

/// The vector with the parts `p` along `x`, `y` and `z`.
pub open spec fn comb(
    x: (int, int, int),
    y: (int, int, int),
    z: (int, int, int),
    p: (int, int, int),
) -> (int, int, int) {
    (
        x.0 * p.0 + y.0 * p.1 + z.0 * p.2,
        x.1 * p.0 + y.1 * p.1 + z.1 * p.2,
        x.2 * p.0 + y.2 * p.1 + z.2 * p.2,
    )
}

pub open spec fn vector(p: Point) -> (int, int, int) {
    (p.x as int, p.y as int, p.z as int)
}

proof fn lemma_det_swap(a: (int, int, int), b: (int, int, int), c: (int, int, int))
    ensures
        det(a, b, c) == -det(b, a, c),
        det(a, b, c) == -det(a, c, b),
        det(a, b, c) == det(b, c, a),
        det(a, a, c) == 0,
        det(a, c, a) == 0,
{
    lemma_det_terms(a, b, c);
    lemma_det_terms(b, a, c);
    lemma_det_terms(a, c, b);
    lemma_det_terms(b, c, a);
    lemma_det_terms(a, a, c);
    lemma_det_terms(a, c, a);
    lemma_turns(a.0, b.1, c.2);
    lemma_turns(a.0, b.2, c.1);
    lemma_turns(a.1, b.2, c.0);
    lemma_turns(a.1, b.0, c.2);
    lemma_turns(a.2, b.0, c.1);
    lemma_turns(a.2, b.1, c.0);
    lemma_turns(a.0, a.1, c.2);
    lemma_turns(a.0, a.2, c.1);
    lemma_turns(a.1, a.2, c.0);
}

proof fn lemma_det_terms(a: (int, int, int), b: (int, int, int), c: (int, int, int))
    ensures
        det(a, b, c) == a.0 * (b.1 * c.2) - a.0 * (b.2 * c.1) + a.1 * (b.2 * c.0) - a.1 * (b.0
            * c.2) + a.2 * (b.0 * c.1) - a.2 * (b.1 * c.0),
{
    lemma_less(a.0, b.1 * c.2, b.2 * c.1);
    lemma_less(a.1, b.2 * c.0, b.0 * c.2);
    lemma_less(a.2, b.0 * c.1, b.1 * c.0);
}

proof fn lemma_less(k: int, x: int, y: int)
    ensures
        k * (x - y) == k * x - k * y,
        (x - y) * k == x * k - y * k,
        (x + y) * k == x * k + y * k,
{
    assert(k * (x - y) == k * x - k * y) by (nonlinear_arith);
    assert((x - y) * k == x * k - y * k) by (nonlinear_arith);
    assert((x + y) * k == x * k + y * k) by (nonlinear_arith);
}

/// A determinant is linear in its first vector.
proof fn lemma_det_less(
    a: (int, int, int),
    d: (int, int, int),
    b: (int, int, int),
    c: (int, int, int),
)
    ensures
        det((a.0 - d.0, a.1 - d.1, a.2 - d.2), b, c) == det(a, b, c) - det(d, b, c),
{
    lemma_less(b.1 * c.2 - b.2 * c.1, a.0, d.0);
    lemma_less(b.2 * c.0 - b.0 * c.2, a.1, d.1);
    lemma_less(b.0 * c.1 - b.1 * c.0, a.2, d.2);
}

proof fn lemma_three_parts(
    x: int,
    y: int,
    z: int,
    p: (int, int, int),
    k: int,
)
    ensures
        (x * p.0 + y * p.1 + z * p.2) * k == p.0 * (x * k) + p.1 * (y * k) + p.2 * (z * k),
{
    let (u, v, w) = (x * p.0, y * p.1, z * p.2);
    assert((u + v + w) * k == u * k + v * k + w * k) by (nonlinear_arith);
    assert((x * p.0) * k == p.0 * (x * k)) by (nonlinear_arith);
    assert((y * p.1) * k == p.1 * (y * k)) by (nonlinear_arith);
    assert((z * p.2) * k == p.2 * (z * k)) by (nonlinear_arith);
}

proof fn lemma_sum_times(k: int, x: int, y: int, z: int)
    ensures
        k * (x + y + z) == k * x + k * y + k * z,
{
    assert(k * (x + y + z) == k * x + k * y + k * z) by (nonlinear_arith);
}

proof fn lemma_det_comb(
    x: (int, int, int),
    y: (int, int, int),
    z: (int, int, int),
    p: (int, int, int),
    b: (int, int, int),
    c: (int, int, int),
)
    ensures
        det(comb(x, y, z, p), b, c) == p.0 * det(x, b, c) + p.1 * det(y, b, c) + p.2 * det(z, b, c),
{
    let (i, j, k) = (
        b.1 * c.2 - b.2 * c.1,
        b.2 * c.0 - b.0 * c.2,
        b.0 * c.1 - b.1 * c.0,
    );
    lemma_three_parts(x.0, y.0, z.0, p, i);
    lemma_three_parts(x.1, y.1, z.1, p, j);
    lemma_three_parts(x.2, y.2, z.2, p, k);
    lemma_sum_times(p.0, x.0 * i, x.1 * j, x.2 * k);
    lemma_sum_times(p.1, y.0 * i, y.1 * j, y.2 * k);
    lemma_sum_times(p.2, z.0 * i, z.1 * j, z.2 * k);
}

proof fn lemma_det_first(
    x: (int, int, int),
    y: (int, int, int),
    z: (int, int, int),
    b: (int, int, int),
    c: (int, int, int),
)
    ensures
        det(x, comb(x, y, z, b), comb(x, y, z, c)) == (b.1 * c.2 - b.2 * c.1) * det(x, y, z),
{
    let (u, v, d) = (comb(x, y, z, b), comb(x, y, z, c), det(x, y, z));
    lemma_det_swap(x, u, v);
    lemma_det_comb(x, y, z, b, x, v);
    lemma_det_swap(x, x, v);
    lemma_det_swap(y, x, v);
    lemma_det_swap(z, x, v);
    // With `y`, only the part along `z` is left, and the other way round.
    lemma_det_swap(x, y, v);
    lemma_det_swap(y, v, x);
    lemma_det_comb(x, y, z, c, x, y);
    lemma_det_swap(x, z, v);
    lemma_det_swap(z, v, x);
    lemma_det_comb(x, y, z, c, x, z);
    lemma_det_swap(x, x, y);
    lemma_det_swap(x, x, z);
    lemma_det_swap(y, x, y);
    lemma_det_swap(z, x, z);
    lemma_det_swap(x, y, z);
    lemma_det_swap(y, z, x);
    lemma_det_swap(z, x, y);
    lemma_det_swap(y, x, z);
    assert(b.0 * 0 == 0 && c.0 * 0 == 0 && c.1 * 0 == 0 && c.2 * 0 == 0);
    assert(det(x, y, v) == c.2 * d);
    assert(det(x, z, v) == -(c.1 * d)) by {
        assert(c.1 * (-d) == -(c.1 * d)) by (nonlinear_arith);
    }
    let (s, t) = (det(x, y, v), det(x, z, v));
    assert(b.1 * (-s) == -(b.1 * s) && b.2 * (-t) == -(b.2 * t)) by (nonlinear_arith);
    assert(b.1 * (c.2 * d) == (b.1 * c.2) * d) by (nonlinear_arith);
    assert(b.2 * (-(c.1 * d)) == -((b.2 * c.1) * d)) by (nonlinear_arith);
    lemma_less(d, b.1 * c.2, b.2 * c.1);
}

/// The volume that turned vectors span.
proof fn lemma_det_product(
    x: (int, int, int),
    y: (int, int, int),
    z: (int, int, int),
    a: (int, int, int),
    b: (int, int, int),
    c: (int, int, int),
)
    ensures
        det(comb(x, y, z, a), comb(x, y, z, b), comb(x, y, z, c)) == det(a, b, c) * det(x, y, z),
{
    let (u, v, d) = (comb(x, y, z, b), comb(x, y, z, c), det(x, y, z));
    lemma_det_comb(x, y, z, a, u, v);
    lemma_det_first(x, y, z, b, c);
    let (b1, c1) = ((b.1, b.2, b.0), (c.1, c.2, c.0));
    let (b2, c2) = ((b.2, b.0, b.1), (c.2, c.0, c.1));
    lemma_det_first(y, z, x, b1, c1);
    lemma_det_first(z, x, y, b2, c2);
    assert(comb(y, z, x, b1) == u && comb(y, z, x, c1) == v);
    assert(comb(z, x, y, b2) == u && comb(z, x, y, c2) == v);
    lemma_det_swap(x, y, z);
    lemma_det_swap(y, z, x);
    let (i, j, k) = (
        b.1 * c.2 - b.2 * c.1,
        b.2 * c.0 - b.0 * c.2,
        b.0 * c.1 - b.1 * c.0,
    );
    assert(a.0 * (i * d) == (a.0 * i) * d) by (nonlinear_arith);
    assert(a.1 * (j * d) == (a.1 * j) * d) by (nonlinear_arith);
    assert(a.2 * (k * d) == (a.2 * k) * d) by (nonlinear_arith);
    let (e, f, g) = (a.0 * i, a.1 * j, a.2 * k);
    assert((e + f + g) * d == e * d + f * d + g * d) by (nonlinear_arith);
}

/// Whether no part of a vector is longer than `m`.
spec fn within(a: (int, int, int), m: int) -> bool {
    -m <= a.0 <= m && -m <= a.1 <= m && -m <= a.2 <= m
}

proof fn lemma_det_bound(
    a: (int, int, int),
    b: (int, int, int),
    c: (int, int, int),
    m: int,
    n: int,
    k: int,
)
    requires
        within(a, m),
        within(b, n),
        within(c, k),
    ensures
        -(6 * (m * (n * k))) <= det(a, b, c) <= 6 * (m * (n * k)),
{
    lemma_product_bound(b.1, c.2, n, k);
    lemma_product_bound(b.2, c.1, n, k);
    lemma_product_bound(b.2, c.0, n, k);
    lemma_product_bound(b.0, c.2, n, k);
    lemma_product_bound(b.0, c.1, n, k);
    lemma_product_bound(b.1, c.0, n, k);
    let nk = n * k;
    lemma_product_bound(a.0, b.1 * c.2 - b.2 * c.1, m, 2 * nk);
    lemma_product_bound(a.1, b.2 * c.0 - b.0 * c.2, m, 2 * nk);
    lemma_product_bound(a.2, b.0 * c.1 - b.1 * c.0, m, 2 * nk);
    assert(m * (2 * nk) == 2 * (m * nk)) by (nonlinear_arith);
}

/// The cone over a triangle is what its corners span, seen from `o`.
proof fn lemma_cone_is_det(o: Point, t: Triangle)
    ensures
        cone(o, t) == det(
            (t.a.x - o.x, t.a.y - o.y, t.a.z - o.z),
            (t.b.x - o.x, t.b.y - o.y, t.b.z - o.z),
            (t.c.x - o.x, t.c.y - o.y, t.c.z - o.z),
        ),
{
    lemma_cone_areas(o, t);
    let (a, b, c) = (
        (t.a.x - o.x, t.a.y - o.y, t.a.z - o.z),
        (t.b.x - o.x, t.b.y - o.y, t.b.z - o.z),
        (t.c.x - o.x, t.c.y - o.y, t.c.z - o.z),
    );
    lemma_det_terms(a, b, c);
    lemma_less(a.1, c.2 * b.0, c.0 * b.2);
    lemma_less(b.1, a.2 * c.0, a.0 * c.2);
    lemma_less(c.1, b.2 * a.0, b.0 * a.2);
    lemma_turns(a.1, c.2, b.0);
    lemma_turns(a.1, c.0, b.2);
    lemma_turns(b.1, a.2, c.0);
    lemma_turns(b.1, a.0, c.2);
    lemma_turns(c.1, b.2, a.0);
    lemma_turns(c.1, b.0, a.2);
}

// ---- Turning a triangle --------------------------------------------------------------

/// How far a rotation is from one that squashes or mirrors: its determinant, in millionths of
/// millionths of millionths.
pub open spec fn handedness(rot: Rotation) -> int {
    det(vector(rot.x_axis), vector(rot.y_axis), vector(rot.z_axis))
}

/// What of a turned coordinate is lost by rounding.
proof fn lemma_turned_axis(rx: int, ry: int, rz: int, p: Point, size: int)
    requires
        -1_000_000 <= rx <= 1_000_000,
        -1_000_000 <= ry <= 1_000_000,
        -1_000_000 <= rz <= 1_000_000,
        p.within(size),
    ensures
        ({
            let (v, w) = (turned(rx, ry, rz, p), rx * p.x + ry * p.y + rz * p.z);
            &&& 0 <= w - 1_000_000 * v < 1_000_000
            &&& -3_000_000 * size <= w <= 3_000_000 * size
            &&& -3 * size <= v <= 3 * size
        }),
{
    lemma_product_bound(rx, p.x as int, 1_000_000, size);
    lemma_product_bound(ry, p.y as int, 1_000_000, size);
    lemma_product_bound(rz, p.z as int, 1_000_000, size);
}

/// What a turned point is, and what of it is lost by rounding.
proof fn lemma_turned_point(rot: Rotation, p: Point, size: int) -> (rest: (int, int, int))
    requires
        rot.valid(),
        p.within(size),
        0 <= size <= SHAPE_LIMIT,
    ensures
        ({
            let a = comb(vector(rot.x_axis), vector(rot.y_axis), vector(rot.z_axis), vector(p));
            let q = rot.of(p);
            &&& a == (
                1_000_000 * q.x + rest.0,
                1_000_000 * q.y + rest.1,
                1_000_000 * q.z + rest.2,
            )
            &&& within(a, 3_000_000 * size)
            &&& within(vector(q), 3 * size)
        }),
        within(rest, 1_000_000),
{
    let (x, y, z) = (rot.x_axis, rot.y_axis, rot.z_axis);
    lemma_turned_axis(x.x as int, y.x as int, z.x as int, p, size);
    lemma_turned_axis(x.y as int, y.y as int, z.y as int, p, size);
    lemma_turned_axis(x.z as int, y.z as int, z.z as int, p, size);
    let q = rot.of(p);
    (
        x.x * p.x + y.x * p.y + z.x * p.z - 1_000_000 * q.x,
        x.y * p.x + y.y * p.y + z.y * p.z - 1_000_000 * q.y,
        x.z * p.x + y.z * p.y + z.z * p.z - 1_000_000 * q.z,
    )
}

/// A vector a million times as long.
spec fn million(p: Point) -> (int, int, int) {
    (1_000_000 * p.x, 1_000_000 * p.y, 1_000_000 * p.z)
}

proof fn lemma_det_million(a: Point, b: Point, c: Point)
    ensures
        det(million(a), million(b), million(c)) == 1_000_000_000_000_000_000 * det(
            vector(a),
            vector(b),
            vector(c),
        ),
{
    lemma_det_terms(million(a), million(b), million(c));
    lemma_det_terms(vector(a), vector(b), vector(c));
    lemma_million(a.x as int, b.y as int, c.z as int);
    lemma_million(a.x as int, b.z as int, c.y as int);
    lemma_million(a.y as int, b.z as int, c.x as int);
    lemma_million(a.y as int, b.x as int, c.z as int);
    lemma_million(a.z as int, b.x as int, c.y as int);
    lemma_million(a.z as int, b.y as int, c.x as int);
}

proof fn lemma_million(a: int, b: int, c: int)
    ensures
        (1_000_000 * a) * ((1_000_000 * b) * (1_000_000 * c)) == 1_000_000_000_000_000_000 * (a * (b
            * c)),
{
    assert((1_000_000 * b) * (1_000_000 * c) == 1_000_000_000_000 * (b * c)) by (nonlinear_arith);
    let d = b * c;
    assert((1_000_000 * a) * (1_000_000_000_000 * d) == 1_000_000_000_000_000_000 * (a * d))
        by (nonlinear_arith);
}

/// Turning keeps the side on which three points lie, but for what rounding takes from what
/// they span.
proof fn lemma_turned_span(rot: Rotation, a: Point, b: Point, c: Point, size: int)
    requires
        rot.valid(),
        handedness(rot) >= 0,
        a.within(size),
        b.within(size),
        c.within(size),
        0 <= size <= SHAPE_LIMIT,
        det(vector(a), vector(b), vector(c)) >= 0,
    ensures
        det(vector(rot.of(a)), vector(rot.of(b)), vector(rot.of(c))) >= -162 * (size * size),
{
    let (x, y, z) = (vector(rot.x_axis), vector(rot.y_axis), vector(rot.z_axis));
    let (f, g, h) = (
        lemma_turned_point(rot, a, size),
        lemma_turned_point(rot, b, size),
        lemma_turned_point(rot, c, size),
    );
    let (u, v, w) = (comb(x, y, z, vector(a)), comb(x, y, z, vector(b)), comb(x, y, z, vector(c)));
    let (p, q, r) = (million(rot.of(a)), million(rot.of(b)), million(rot.of(c)));
    let m = 1_000_000int;
    assert(p == (u.0 - f.0, u.1 - f.1, u.2 - f.2));
    assert(q == (v.0 - g.0, v.1 - g.1, v.2 - g.2));
    assert(r == (w.0 - h.0, w.1 - h.1, w.2 - h.2));
    // Rounding is taken off one corner after the other.
    lemma_det_less(u, f, q, r);
    lemma_det_swap(u, q, r);
    lemma_det_less(v, g, r, u);
    lemma_det_swap(v, r, u);
    lemma_det_less(w, h, u, v);
    lemma_det_swap(w, u, v);
    lemma_det_bound(f, q, r, m, 3_000_000 * size, 3_000_000 * size);
    lemma_det_bound(g, r, u, m, 3_000_000 * size, 3_000_000 * size);
    lemma_det_bound(h, u, v, m, 3_000_000 * size, 3_000_000 * size);
    let ss = size * size;
    assert((3_000_000 * size) * (3_000_000 * size) == 9_000_000_000_000 * (size * size))
        by (nonlinear_arith);
    lemma_det_product(x, y, z, vector(a), vector(b), vector(c));
    let (d, e) = (det(vector(a), vector(b), vector(c)), det(x, y, z));
    assert(d * e >= 0) by (nonlinear_arith)
        requires
            d >= 0,
            e >= 0,
    ;
    assert(det(p, q, r) >= d * e - 3 * (6 * (m * (9_000_000_000_000 * ss))));
    lemma_det_million(rot.of(a), rot.of(b), rot.of(c));
}

/// A triangle that faces away from the body's middle still does so when the body is turned, but
/// for rounding.
proof fn lemma_turned_cone(t: Triangle, pos: Point, rot: Rotation, size: int)
    requires
        rot.valid(),
        handedness(rot) >= 0,
        pos.within(POSITION_LIMIT as int),
        t.within(size),
        0 <= size <= SHAPE_LIMIT,
        cone(middle(), t) >= 0,
    ensures
        dent(pos, t.placed(pos, rot)) <= 162 * (size * size),
{
    lemma_cone_is_det(middle(), t);
    lemma_cone_is_det(pos, t.placed(pos, rot));
    lemma_turned_point(rot, t.a, size);
    lemma_turned_point(rot, t.b, size);
    lemma_turned_point(rot, t.c, size);
    lemma_turned_span(rot, t.a, t.b, t.c, size);
    assert(0 <= size * size) by (nonlinear_arith);
}

// ---- The hull ------------------------------------------------------------------------

proof fn lemma_rim_within(shape: Shape, headings: Seq<Heading>, i: int, j: int, rings: int, size: int)
    requires
        shape.valid(),
        headings_valid(headings),
        0 <= j <= rings,
        0 < rings,
        shape.r_top <= size,
        shape.r_bottom <= size,
        shape.length <= size <= SHAPE_LIMIT,
    ensures
        rim(shape, headings, i, j, rings).within(size),
        -size <= ring_height(shape, j, rings) <= size,
{
    let n = headings.len() as int;
    let h = headings[i % n];
    assert(h.valid());
    let (r, y) = (ring_radius(shape, j, rings), ring_height(shape, j, rings));
    let (a, b) = (shape.r_bottom as int, shape.r_top as int);
    let gap = if a <= b { b - a } else { a - b };
    assert(0 <= (gap * j) / rings <= gap) by (nonlinear_arith)
        requires
            0 <= gap,
            0 <= j <= rings,
            0 < rings,
    ;
    let (l, t) = (shape.length as int, 2 * j - rings);
    lemma_product_bound(l, t, l, rings);
    assert(-l <= (l * t) / (2 * rings) <= l) by (nonlinear_arith)
        requires
            -(l * rings) <= l * t <= l * rings,
            0 < rings,
            0 <= l,
    ;
    lemma_product_bound(h.cos as int, r, 1_000_000, r);
    lemma_product_bound(h.sin as int, r, 1_000_000, r);
}

/// No corner of the hull lies farther out than the body is long or wide.
proof fn lemma_hull_within(shape: Shape, headings: Seq<Heading>, rings: int, size: int, k: int)
    requires
        shape.valid(),
        shape.r_top > super::hydro::RIM_EPSILON,
        shape.r_bottom > super::hydro::RIM_EPSILON,
        headings_valid(headings),
        0 < rings,
        shape.r_top <= size,
        shape.r_bottom <= size,
        shape.length <= size <= SHAPE_LIMIT,
        0 <= k < hull(shape, headings, rings).len(),
    ensures
        hull(shape, headings, rings)[k].within(size),
{
    let (w, c) = (wall(shape, headings, rings), caps(shape, headings, rings, headings.len() as int));
    if k < w.len() {
        let (j, i, s) = lemma_wall_piece(shape, headings, rings, k);
        lemma_rim_within(shape, headings, i, j, rings, size);
        lemma_rim_within(shape, headings, i + 1, j, rings, size);
        lemma_rim_within(shape, headings, i, j + 1, rings, size);
        lemma_rim_within(shape, headings, i + 1, j + 1, rings, size);
        assert((w + c)[k] == w[k]);
    } else {
        let m = k - w.len();
        lemma_cap_at(shape, headings, rings, 0);
        lemma_cap_at(shape, headings, rings, m);
        lemma_rim_within(shape, headings, m / 2, rings, rings, size);
        lemma_rim_within(shape, headings, m / 2 + 1, rings, rings, size);
        lemma_rim_within(shape, headings, m / 2, 0, rings, size);
        lemma_rim_within(shape, headings, m / 2 + 1, 0, rings, size);
        assert((w + c)[k] == c[m]);
    }
}

/// Whether a body no larger than `size`, roomy for its segments and bands, lies in the tank,
/// turned by a rotation that does not mirror it.
pub open spec fn floats(
    shape: Shape,
    headings: Seq<Heading>,
    rings: int,
    chord: int,
    size: int,
    pos: Point,
    rot: Rotation,
) -> bool {
    &&& shape.r_top <= size
    &&& shape.r_bottom <= size
    &&& shape.length <= size <= SHAPE_LIMIT
    &&& roomy(shape, headings, rings, chord)
    &&& rot.valid()
    &&& handedness(rot) >= 0
    &&& pos.within(POSITION_LIMIT as int)
}

/// How many triangles are turned in towards `o`.
pub open spec fn turned_in(tris: Seq<Triangle>, o: Point) -> nat
    decreases tris.len(),
{
    if tris.len() == 0 {
        0
    } else {
        turned_in(tris.drop_last(), o) + if cone(o, tris.last()) < 0 {
            1nat
        } else {
            0
        }
    }
}

proof fn lemma_dents(tris: Seq<Triangle>, o: Point, most: int)
    requires
        forall|i: int| 0 <= i < tris.len() ==> dent(o, #[trigger] tris[i]) <= most,
    ensures
        dents(tris, o) <= turned_in(tris, o) * most,
    decreases tris.len(),
{
    if tris.len() == 0 {
        assert(0 * most == 0);
    } else {
        let before = tris.drop_last();
        assert forall|i: int| 0 <= i < before.len() implies dent(o, #[trigger] before[i]) <= most by {
            assert(before[i] == tris[i]);
        }
        lemma_dents(before, o, most);
        assert(dent(o, tris[tris.len() - 1]) <= most);
        let n = turned_in(before, o) as int;
        assert((n + 1) * most == n * most + most) by (nonlinear_arith);
    }
}

/// The hull of a body faces away from the body's middle wherever the body lies and however it is
/// turned, but for dents that rounding makes.
pub proof fn law_a_turned_hull_is_hardly_dented(
    shape: Shape,
    headings: Seq<Heading>,
    rings: int,
    chord: int,
    size: int,
    pos: Point,
    rot: Rotation,
)
    requires
        floats(shape, headings, rings, chord, size, pos, rot),
    ensures
        ({
            let world = placed_hull(hull(shape, headings, rings), pos, rot);
            dents(world, pos) <= turned_in(world, pos) * (162 * (size * size))
        }),
{
    let all = hull(shape, headings, rings);
    let world = placed_hull(all, pos, rot);
    law_hull_faces_away_from_its_middle(shape, headings, rings, chord);
    assert forall|k: int| 0 <= k < world.len() implies dent(pos, #[trigger] world[k]) <= 162 * (size
        * size) by {
        assert(world[k] == all[k].placed(pos, rot));
        assert(cone(middle(), all[k]) >= 0);
        lemma_hull_within(shape, headings, rings, size, k);
        lemma_turned_cone(all[k], pos, rot, size);
    }
    lemma_dents(world, pos, 162 * (size * size));
}

/// A hull in the tank can be measured.
proof fn lemma_hull_measured(
    shape: Shape,
    headings: Seq<Heading>,
    rings: int,
    chord: int,
    size: int,
    pos: Point,
    rot: Rotation,
    level: i64,
    reach: int,
)
    requires
        floats(shape, headings, rings, chord, size, pos, rot),
        6 * size <= reach,
        -(reach - 3 * size) <= pos.y - level <= reach - 3 * size,
    ensures
        measured(placed_hull(hull(shape, headings, rings), pos, rot), level, reach),
{
    let all = hull(shape, headings, rings);
    let world = placed_hull(all, pos, rot);
    assert forall|k: int| 0 <= k < world.len() implies (#[trigger] world[k]).within(
        HULL_LIMIT as int,
    ) && near(world[k], level, reach) by {
        let t = all[k];
        assert(world[k] == t.placed(pos, rot));
        lemma_hull_within(shape, headings, rings, size, k);
        lemma_turned_point(rot, t.a, size);
        lemma_turned_point(rot, t.b, size);
        lemma_turned_point(rot, t.c, size);
    }
}

/// A body that floats in the tank, upright or tilted, displaces no less when the water rises,
/// but for what is rounded off the triangles of its hull and for the dents that rounding makes
/// in it.
pub proof fn law_a_floating_body_displaces_no_less(
    shape: Shape,
    headings: Seq<Heading>,
    rings: int,
    chord: int,
    size: int,
    pos: Point,
    rot: Rotation,
    k: i64,
    l: i64,
    reach: int,
)
    requires
        floats(shape, headings, rings, chord, size, pos, rot),
        k <= l,
        6 * size <= reach,
        -(reach - 3 * size) <= pos.y - k <= reach - 3 * size,
        -(reach - 3 * size) <= pos.y - l <= reach - 3 * size,
    ensures
        ({
            let world = placed_hull(hull(shape, headings, rings), pos, rot);
            sixfold_volume(clipped(world, k), k) <= sixfold_volume(clipped(world, l), l) + losses(
                world,
                k,
            ) * slack(reach) + losses(world, l) * slack(reach) + turned_in(world, pos) * (162 * (size
                * size))
        }),
{
    let all = hull(shape, headings, rings);
    let world = placed_hull(all, pos, rot);
    law_hull_is_sealed(shape, headings, rings);
    law_a_moved_hull_stays_sealed(all, pos, rot);
    law_a_turned_hull_is_hardly_dented(shape, headings, rings, chord, size, pos, rot);
    lemma_hull_measured(shape, headings, rings, chord, size, pos, rot, k, reach);
    lemma_hull_measured(shape, headings, rings, chord, size, pos, rot, l, reach);
    law_rising_water_displaces_no_less(world, pos, k, l, reach);
}

} // verus!
