//! The hull faces away from the middle of the body.

use super::hydro::{bottom_piece, headings_valid, hull, lemma_ring_height, lemma_wall_piece};
use super::hydro::{caps, ring_height, ring_radius, ring_spot, top_piece, wall, wall_piece};
use super::hydro::{Heading, Shape, Triangle, RIM_EPSILON, SHAPE_LIMIT};
use super::solid::{lemma_cap_at, lemma_no_turn, lemma_turn, turn};
use super::volume::{cone, faces_away, lemma_cone_areas};
use crate::geom::{lemma_product_bound, Point};
use vstd::prelude::*;

verus! {

/// The middle of the body.
pub open spec fn middle() -> Point {
    Point { x: 0, y: 0, z: 0 }
}

/// Whether the body is so roomy for its segments and bands that rounding turns no triangle of
/// its hull in: it is longer and wider than a few micrometres for each band, and the headings go
/// round in steps that move a point at either rim by `chord` micrometres or more.
pub open spec fn roomy(shape: Shape, headings: Seq<Heading>, rings: int, chord: int) -> bool {
    let (l, p) = (shape.length as int, shape.r_top + shape.r_bottom);
    &&& shape.valid()
    &&& shape.r_top > RIM_EPSILON
    &&& shape.r_bottom > RIM_EPSILON
    &&& headings_valid(headings)
    &&& 0 < rings
    &&& 8 * rings <= l
    &&& 8 * rings <= p
    &&& 64 * rings <= chord
    &&& forall|i: int|
        0 <= i < headings.len() ==> {
            let (h, g) = (#[trigger] headings[i], headings[(i + 1) % headings.len() as int]);
            let s = h.cos * g.sin - h.sin * g.cos;
            &&& s * shape.r_top >= 1_000_000_000_000 * chord
            &&& s * shape.r_bottom >= 1_000_000_000_000 * chord
        }
}

/// A cone over a triangle from the middle, by how far its corners lie round the axis from each
/// other.
proof fn lemma_cone_by_turns(t: Triangle)
    ensures
        cone(middle(), t) == t.b.y * turn(t.a, t.c) - t.a.y * turn(t.b, t.c) - t.c.y * turn(
            t.a,
            t.b,
        ),
{
    lemma_cone_areas(middle(), t);
    let (ax, az, bx, bz) = (t.a.x as int, t.a.z as int, t.b.x as int, t.b.z as int);
    let (cx, cz) = (t.c.x as int, t.c.z as int);
    assert(cz * bx == bx * cz && cx * bz == bz * cx && az * cx == cx * az) by (nonlinear_arith);
    assert(bz * ax == ax * bz && bx * az == az * bx && ax * cz == cz * ax) by (nonlinear_arith);
    let q = turn(t.a, t.c);
    assert(t.b.y * (-q) == -(t.b.y * q)) by (nonlinear_arith);
    assert((Triangle { a: middle(), b: t.a, c: t.c }).area_y() == -q);
}

// ---- Heights and radii of the rings --------------------------------------------------

/// What is lost of a ring's radius by rounding.
proof fn lemma_radius_rest(shape: Shape, j: int, n: int) -> (rest: int)
    requires
        shape.valid(),
        0 <= j <= n,
        0 < n,
    ensures
        n * ring_radius(shape, j, n) == n * shape.r_bottom + (shape.r_top - shape.r_bottom) * j
            - rest,
        -n < rest < n,
        0 <= ring_radius(shape, j, n) <= shape.r_top + shape.r_bottom,
        shape.r_top <= ring_radius(shape, j, n) || shape.r_bottom <= ring_radius(shape, j, n),
        j == 0 ==> ring_radius(shape, j, n) == shape.r_bottom,
        j == n ==> ring_radius(shape, j, n) == shape.r_top,
{
    let (a, b) = (shape.r_bottom as int, shape.r_top as int);
    let g = if a <= b { b - a } else { a - b };
    let t = (g * j) / n;
    vstd::arithmetic::div_mod::lemma_fundamental_div_mod(g * j, n);
    let m = (g * j) % n;
    assert(0 <= t <= g) by (nonlinear_arith)
        requires
            t == (g * j) / n,
            0 <= g,
            0 <= j <= n,
            0 < n,
    ;
    if j == 0 {
        assert(g * 0 == 0);
        assert(t == 0) by (nonlinear_arith)
            requires
                t == 0int / n,
                0 < n,
        ;
    }
    if j == n {
        assert(t == g) by (nonlinear_arith)
            requires
                t == (g * n) / n,
                0 < n,
        ;
    }
    if a <= b {
        assert(n * (a + t) == n * a + n * t) by (nonlinear_arith);
        m
    } else {
        assert(n * (a - t) == n * a - n * t) by (nonlinear_arith);
        assert((b - a) * j == -(g * j)) by (nonlinear_arith)
            requires
                g == a - b,
        ;
        -m
    }
}

/// What is lost of a ring's height by rounding.
proof fn lemma_height_rest(shape: Shape, j: int, n: int) -> (rest: int)
    requires
        shape.valid(),
        0 <= j <= n,
        0 < n,
    ensures
        2 * n * ring_height(shape, j, n) == shape.length * (2 * j - n) - rest,
        0 <= rest < 2 * n,
        -shape.length <= ring_height(shape, j, n) <= shape.length,
{
    let (l, d) = (shape.length as int, 2 * n);
    let x = l * (2 * j - n);
    vstd::arithmetic::div_mod::lemma_fundamental_div_mod(x, d);
    let t = 2 * j - n;
    assert(-(l * n) <= l * t <= l * n) by (nonlinear_arith)
        requires
            -n <= t <= n,
            0 <= l,
    ;
    assert(-l <= (l * t) / (2 * n) <= l) by (nonlinear_arith)
        requires
            -(l * n) <= l * t <= l * n,
            0 < n,
            0 <= l,
    ;
    x % d
}

/// How far the wall between two rings passes the middle.
proof fn lemma_clearance(shape: Shape, j: int, n: int)
    requires
        shape.valid(),
        0 <= j < n,
        8 * n <= shape.length,
        8 * n <= shape.r_top + shape.r_bottom,
    ensures
        4 * n * (ring_height(shape, j + 1, n) * ring_radius(shape, j, n) - ring_height(shape, j, n)
            * ring_radius(shape, j + 1, n)) >= shape.length * (shape.r_top + shape.r_bottom),
{
    let (l, p) = (shape.length as int, shape.r_top + shape.r_bottom);
    let (y, z) = (ring_height(shape, j, n), ring_height(shape, j + 1, n));
    let (r, q) = (ring_radius(shape, j, n), ring_radius(shape, j + 1, n));
    let (f, e) = (lemma_radius_rest(shape, j, n), lemma_radius_rest(shape, j + 1, n));
    let (s, t) = (lemma_height_rest(shape, j, n), lemma_height_rest(shape, j + 1, n));
    let g = shape.r_top - shape.r_bottom;
    let (a, b) = (n * shape.r_bottom + g * j, l * (2 * j - n));
    assert(g * (j + 1) == g * j + g) by (nonlinear_arith);
    assert(l * (2 * (j + 1) - n) == b + 2 * l) by (nonlinear_arith)
        requires
            b == l * (2 * j - n),
    ;
    let (nr, nq, ny, nz) = (n * r, n * q, 2 * n * y, 2 * n * z);
    assert(nr == a - f && nq == a + g - e && ny == b - s && nz == b + 2 * l - t);
    // What would be exact, and what is lost.
    let bl = b + 2 * l;
    assert((bl - t) * nr == bl * nr - t * nr) by (nonlinear_arith);
    assert((b - s) * nq == b * nq - s * nq) by (nonlinear_arith);
    assert(bl * (a - f) == bl * a - bl * f) by (nonlinear_arith);
    assert(b * (a + g - e) == b * a + b * g - b * e) by (nonlinear_arith);
    assert((b + 2 * l) * a == b * a + 2 * (l * a)) by (nonlinear_arith);
    lemma_exact_clearance(l, n, j, shape.r_bottom as int, g);
    assert(shape.r_bottom + (shape.r_bottom + g) == p);
    let ln = l * n;
    lemma_product_bound(l, 2 * j - n, l, n);
    lemma_product_bound(l, 2 * (j + 1) - n, l, n);
    lemma_product_bound(b + 2 * l, f, ln, n);
    lemma_product_bound(b, e, ln, n);
    assert(0 <= s * nq) by (nonlinear_arith)
        requires
            0 <= s,
            nq == n * q,
            0 <= n,
            0 <= q,
    ;
    let np = n * p;
    assert(0 <= n * r <= n * p) by (nonlinear_arith)
        requires
            0 <= r <= p,
            0 < n,
    ;
    lemma_product_bound(t, nr, 2 * n, np);
    let w = z * r - y * q;
    let (zr, yq) = (z * r, y * q);
    assert((2 * n * z) * (n * r) == 2 * (n * (n * (z * r)))) by (nonlinear_arith);
    assert((2 * n * y) * (n * q) == 2 * (n * (n * (y * q)))) by (nonlinear_arith);
    assert(n * (n * (zr - yq)) == n * (n * zr) - n * (n * yq)) by (nonlinear_arith);
    let lp = l * p;
    assert(8 * (l * n) <= l * p) by (nonlinear_arith)
        requires
            8 * n <= p,
            0 < l,
    ;
    assert(8 * (ln * n) <= n * lp) by (nonlinear_arith)
        requires
            8 * ln <= lp,
            0 < n,
    ;
    assert(8 * (n * p) <= l * p) by (nonlinear_arith)
        requires
            8 * n <= l,
            0 < p,
    ;
    assert(8 * (n * np) <= n * lp) by (nonlinear_arith)
        requires
            8 * np <= lp,
            0 < n,
    ;
    assert((2 * n) * np == 2 * (n * np)) by (nonlinear_arith);
    assert((l * n) * p == n * (l * p)) by (nonlinear_arith);
    assert(4 * (n * (n * w)) >= n * lp);
    assert(n * (4 * n * w) == 4 * (n * (n * w))) by (nonlinear_arith);
    let v = 4 * n * w;
    assert(v >= lp) by (nonlinear_arith)
        requires
            n * v >= n * lp,
            0 < n,
    ;
}

proof fn lemma_exact_clearance(l: int, n: int, j: int, r: int, g: int)
    ensures
        2 * (l * (n * r + g * j)) - (l * (2 * j - n)) * g == (l * n) * (r + (r + g)),
{
    let (nr, gj) = (n * r, g * j);
    assert(l * (nr + gj) == l * nr + l * gj) by (nonlinear_arith);
    assert((l * (2 * j - n)) * g == 2 * (l * (g * j)) - (l * n) * g) by (nonlinear_arith);
    let ln = l * n;
    assert(ln * (r + (r + g)) == 2 * (ln * r) + ln * g) by (nonlinear_arith);
    assert((l * n) * r == l * (n * r)) by (nonlinear_arith);
}

// ---- The pieces of the hull ----------------------------------------------------------

/// The chord between two headings is nowhere shorter than at one of the rims.
proof fn lemma_chord(shape: Shape, j: int, n: int, s: int, chord: int)
    requires
        shape.valid(),
        shape.r_top > RIM_EPSILON,
        shape.r_bottom > RIM_EPSILON,
        0 <= j <= n,
        0 < n,
        0 <= chord,
        s * shape.r_top >= 1_000_000_000_000 * chord,
        s * shape.r_bottom >= 1_000_000_000_000 * chord,
    ensures
        s * ring_radius(shape, j, n) >= 1_000_000_000_000 * chord,
        0 < ring_radius(shape, j, n) <= SHAPE_LIMIT,
{
    super::hydro::lemma_ring_radius(shape, j, n);
    lemma_radius_rest(shape, j, n);
    let r = ring_radius(shape, j, n);
    let (a, b) = (shape.r_top as int, shape.r_bottom as int);
    assert(s >= 0) by (nonlinear_arith)
        requires
            s * a >= 0,
            a > 0,
    ;
    let least = if r >= a { a } else { b };
    assert(s * r >= s * least) by (nonlinear_arith)
        requires
            r >= least,
            s >= 0,
    ;
}

/// What a piece of the wall spans with the middle, by turns that rounding has moved by no more
/// than `slip_u` and `slip_v`.
proof fn lemma_span_of_wall(
    z: int,
    y: int,
    u: int,
    v: int,
    exact_u: int,
    exact_v: int,
    slip_u: int,
    slip_v: int,
    l: int,
)
    requires
        -l <= y <= l,
        -l <= z <= l,
        -slip_u <= u - exact_u <= slip_u,
        -slip_v <= v - exact_v <= slip_v,
    ensures
        z * u - y * v >= z * exact_u - y * exact_v - l * slip_u - l * slip_v,
{
    let (f, g) = (u - exact_u, v - exact_v);
    lemma_product_bound(z, f, l, slip_u);
    lemma_product_bound(y, g, l, slip_v);
    assert(z * (exact_u + f) == z * exact_u + z * f) by (nonlinear_arith);
    assert(y * (exact_v + g) == y * exact_v + y * g) by (nonlinear_arith);
}

/// A chord times a clearance `w` is more than all that rounding takes.
proof fn lemma_enough(n: int, k: int, x: int, w: int, chord: int, l: int, p: int)
    requires
        0 < n,
        64 * n <= chord,
        0 < l,
        0 < p,
        x >= 1_000_000_000_000 * chord,
        4 * n * w >= l * p,
        1_000_000_000_000 * k >= x * w - 1_000_000_000_000 * (16 * (l * p)),
    ensures
        k >= 0,
{
    let lp = l * p;
    assert(lp > 0) by (nonlinear_arith)
        requires
            lp == l * p,
            0 < l,
            0 < p,
    ;
    assert(w > 0) by (nonlinear_arith)
        requires
            4 * n * w > 0,
            0 < n,
    ;
    let c = 1_000_000_000_000 * chord;
    assert(x * w >= c * w) by (nonlinear_arith)
        requires
            x >= c,
            w > 0,
    ;
    assert((1_000_000_000_000 * chord) * w == 1_000_000_000_000 * (chord * w)) by (nonlinear_arith);
    assert(k >= chord * w - 16 * lp);
    let nw = 4 * n * w;
    assert(chord * nw >= chord * lp) by (nonlinear_arith)
        requires
            nw >= lp,
            0 <= chord,
    ;
    assert(chord * (4 * n * w) == (4 * n) * (chord * w)) by (nonlinear_arith);
    let m = 4 * n;
    let cw = chord * w;
    assert(m * (cw - 16 * lp) == m * cw - 16 * (m * lp)) by (nonlinear_arith);
    assert(m * k >= m * (cw - 16 * lp)) by (nonlinear_arith)
        requires
            k >= cw - 16 * lp,
            m > 0,
    ;
    assert(lp * (chord - 64 * n) == chord * lp - 16 * ((4 * n) * lp)) by (nonlinear_arith);
    assert(lp * (chord - 64 * n) >= 0) by (nonlinear_arith)
        requires
            lp > 0,
            64 * n <= chord,
    ;
    assert(k >= 0) by (nonlinear_arith)
        requires
            m * k >= 0,
            m > 0,
    ;
}

/// A piece of the wall faces away from the middle.
#[verifier::rlimit(40)]
#[verifier::spinoff_prover]
proof fn lemma_wall_spans(
    shape: Shape,
    headings: Seq<Heading>,
    rings: int,
    chord: int,
    j: int,
    i: int,
    side: int,
)
    requires
        roomy(shape, headings, rings, chord),
        0 <= j < rings,
        0 <= i < headings.len(),
        0 <= side < 2,
    ensures
        cone(middle(), wall_piece(shape, headings, rings, j, i, side)) >= 0,
{
    let n = headings.len() as int;
    vstd::arithmetic::div_mod::lemma_small_mod(i as nat, n as nat);
    let (h, g) = (headings[i], headings[(i + 1) % n]);
    assert(h.valid() && g.valid());
    let s = h.cos * g.sin - h.sin * g.cos;
    let (l, p) = (shape.length as int, shape.r_top + shape.r_bottom);
    let (y, z) = (ring_height(shape, j, rings), ring_height(shape, j + 1, rings));
    let (r, q) = (ring_radius(shape, j, rings), ring_radius(shape, j + 1, rings));
    lemma_chord(shape, j, rings, s, chord);
    lemma_chord(shape, j + 1, rings, s, chord);
    lemma_radius_rest(shape, j, rings);
    lemma_radius_rest(shape, j + 1, rings);
    lemma_height_rest(shape, j, rings);
    lemma_height_rest(shape, j + 1, rings);
    lemma_ring_height(shape, j, rings);
    lemma_ring_height(shape, j + 1, rings);
    lemma_clearance(shape, j, rings);
    let t = wall_piece(shape, headings, rings, j, i, side);
    lemma_cone_by_turns(t);
    let e12 = 1_000_000_000_000int;
    let k = cone(middle(), t);
    let w = z * r - y * q;
    assert(0 * (r * q) == 0);
    assert(h.cos * h.sin - h.sin * h.cos == 0) by (nonlinear_arith);
    assert(g.cos * g.sin - g.sin * g.cos == 0) by (nonlinear_arith);
    assert(l * (8 * r + 4 * q + 3) <= 16 * (l * p) && l * (4 * r + 8 * q + 3) <= 16 * (l * p))
        by (nonlinear_arith)
        requires
            0 <= r <= p,
            0 <= q <= p,
            8 <= p,
            0 < l,
    ;
    if side == 0 {
        // Between `t.a` and `t.b` lies no turn but that of rounding.
        lemma_turn(h, g, r, r, y, y);
        lemma_turn(h, g, q, r, z, y);
        lemma_turn(h, h, r, q, y, z);
        let (u, v, o) = (turn(t.a, t.c), turn(t.b, t.c), turn(t.a, t.b));
        assert(k == z * u - y * v - y * o);
        assert(y * (v + o) == y * v + y * o) by (nonlinear_arith);
        let (su, sv) = (s * (r * r), s * (q * r));
        lemma_span_of_wall(
            z,
            y,
            e12 * u,
            e12 * (v + o),
            su,
            sv,
            e12 * (4 * r + 1),
            e12 * (4 * (r + q) + 2),
            l,
        );
        assert(z * (e12 * u) - y * (e12 * (v + o)) == e12 * (z * u - y * (v + o))) by (nonlinear_arith)
            requires
                e12 == 1_000_000_000_000,
        ;
        assert(z * (s * (r * r)) == (s * r) * (z * r)) by (nonlinear_arith);
        assert(y * (s * (q * r)) == (s * r) * (y * q)) by (nonlinear_arith);
        let (x, zr, yq) = (s * r, z * r, y * q);
        assert(x * (zr - yq) == x * zr - x * yq) by (nonlinear_arith);
        assert(l * (e12 * (4 * r + 1)) + l * (e12 * (4 * (r + q) + 2)) == e12 * (l * (8 * r + 4 * q
            + 3))) by (nonlinear_arith)
            requires
                e12 == 1_000_000_000_000,
        ;
        lemma_enough(rings, k, x, w, chord, l, p);
    } else {
        lemma_turn(g, g, r, q, y, z);
        lemma_turn(h, g, q, r, z, y);
        lemma_turn(h, g, q, q, z, z);
        lemma_no_turn(t.a, t.b);
        let (u, v, o) = (turn(t.b, t.a), turn(t.b, t.c), turn(t.a, t.c));
        assert(turn(t.a, t.b) == -u);
        assert(z * (-u) == -(z * u)) by (nonlinear_arith);
        assert(k == z * o - y * v + z * u);
        assert(z * (u + o) == z * u + z * o) by (nonlinear_arith);
        let (su, sv) = (s * (q * r), s * (q * q));
        lemma_span_of_wall(
            z,
            y,
            e12 * (u + o),
            e12 * v,
            su,
            sv,
            e12 * (4 * (r + q) + 2),
            e12 * (4 * q + 1),
            l,
        );
        assert(z * (e12 * (u + o)) - y * (e12 * v) == e12 * (z * (u + o) - y * v)) by (nonlinear_arith)
            requires
                e12 == 1_000_000_000_000,
        ;
        assert(z * (s * (q * r)) == (s * q) * (z * r)) by (nonlinear_arith);
        assert(y * (s * (q * q)) == (s * q) * (y * q)) by (nonlinear_arith);
        let (x, zr, yq) = (s * q, z * r, y * q);
        assert(x * (zr - yq) == x * zr - x * yq) by (nonlinear_arith);
        assert(l * (e12 * (4 * (r + q) + 2)) + l * (e12 * (4 * q + 1)) == e12 * (l * (4 * r + 8 * q
            + 3))) by (nonlinear_arith)
            requires
                e12 == 1_000_000_000_000,
        ;
        lemma_enough(rings, k, x, w, chord, l, p);
    }
}

/// A level piece of radius `r` above the middle faces up.
proof fn lemma_level_span(y: int, t: int, r: int, chord: int)
    requires
        y >= 0,
        0 < r,
        5 <= chord,
        t >= chord * r - 4 * r - 1,
    ensures
        y * t >= 0,
{
    assert((chord - 5) * r == chord * r - 5 * r) by (nonlinear_arith);
    assert((chord - 5) * r >= 0) by (nonlinear_arith)
        requires
            5 <= chord,
            0 < r,
    ;
    assert(y * t >= 0) by (nonlinear_arith)
        requires
            y >= 0,
            t >= 0,
    ;
}

/// The turn between two headings at a ring of radius `r`.
proof fn lemma_chord_turn(h: Heading, g: Heading, r: int, y: int, s: int, chord: int)
    requires
        h.valid(),
        g.valid(),
        0 < r <= SHAPE_LIMIT,
        s == h.cos * g.sin - h.sin * g.cos,
        s * r >= 1_000_000_000_000 * chord,
    ensures
        turn(ring_spot(h, y, r), ring_spot(g, y, r)) >= chord * r - 4 * r - 1,
{
    lemma_turn(h, g, r, r, y, y);
    let (x, c) = (s * r, 1_000_000_000_000 * chord);
    assert(s * (r * r) == (s * r) * r) by (nonlinear_arith);
    assert(x * r >= c * r) by (nonlinear_arith)
        requires
            x >= c,
            0 < r,
    ;
    assert((1_000_000_000_000 * chord) * r == 1_000_000_000_000 * (chord * r)) by (nonlinear_arith);
}

/// The pieces of the two ends face away from the middle.
proof fn lemma_ends_span(
    shape: Shape,
    headings: Seq<Heading>,
    rings: int,
    chord: int,
    i: int,
)
    requires
        roomy(shape, headings, rings, chord),
        0 <= i < headings.len(),
    ensures
        cone(middle(), top_piece(shape, headings, rings, i)) >= 0,
        cone(middle(), bottom_piece(shape, headings, rings, i)) >= 0,
{
    let n = headings.len() as int;
    vstd::arithmetic::div_mod::lemma_small_mod(i as nat, n as nat);
    let (h, g) = (headings[i], headings[(i + 1) % n]);
    assert(h.valid() && g.valid());
    let s = h.cos * g.sin - h.sin * g.cos;
    let l = shape.length as int;
    lemma_radius_rest(shape, rings, rings);
    lemma_radius_rest(shape, 0, rings);
    lemma_ring_height(shape, rings, rings);
    lemma_ring_height(shape, 0, rings);
    let (top, low) = (top_piece(shape, headings, rings, i), bottom_piece(shape, headings, rings, i));
    let (y, z) = (ring_height(shape, 0, rings), ring_height(shape, rings, rings));
    let (f, e) = (lemma_height_rest(shape, 0, rings), lemma_height_rest(shape, rings, rings));
    assert(4 * z >= l) by (nonlinear_arith)
        requires
            2 * rings * z == l * (2 * rings - rings) - e,
            0 <= e < 2 * rings,
            0 < rings,
            8 <= l,
    ;
    assert(4 * (-y) >= l) by (nonlinear_arith)
        requires
            2 * rings * y == l * (2 * 0 - rings) - f,
            0 <= f,
            0 < rings,
            8 <= l,
    ;
    lemma_cone_by_turns(top);
    lemma_cone_by_turns(low);
    lemma_on_the_axis(top.a, top.b);
    lemma_on_the_axis(top.a, top.c);
    lemma_on_the_axis(low.a, low.b);
    lemma_on_the_axis(low.a, low.c);
    lemma_no_turn(top.b, top.c);
    lemma_chord_turn(h, g, shape.r_top as int, z, s, chord);
    lemma_chord_turn(h, g, shape.r_bottom as int, y, s, chord);
    let (u, v) = (turn(top.c, top.b), turn(low.b, low.c));
    assert(z * (-u) == -(z * u) && (-y) * v == -(y * v)) by (nonlinear_arith);
    assert(z * 0 == 0 && y * 0 == 0);
    lemma_level_span(z, u, shape.r_top as int, chord);
    lemma_level_span(-y, v, shape.r_bottom as int, chord);
}

proof fn lemma_on_the_axis(p: Point, q: Point)
    requires
        p.x == 0,
        p.z == 0,
    ensures
        turn(p, q) == 0,
{
    assert(0 * q.z == 0 && 0 * q.x == 0);
}

/// The hull of a roomy body faces away from its middle.
pub proof fn law_hull_faces_away_from_its_middle(
    shape: Shape,
    headings: Seq<Heading>,
    rings: int,
    chord: int,
)
    requires
        roomy(shape, headings, rings, chord),
    ensures
        faces_away(hull(shape, headings, rings), middle()),
{
    let all = hull(shape, headings, rings);
    let (w, c) = (wall(shape, headings, rings), caps(shape, headings, rings, headings.len() as int));
    assert forall|k: int| 0 <= k < all.len() implies cone(middle(), #[trigger] all[k]) >= 0 by {
        if k < w.len() {
            let (j, i, side) = lemma_wall_piece(shape, headings, rings, k);
            lemma_wall_spans(shape, headings, rings, chord, j, i, side);
            assert((w + c)[k] == w[k]);
        } else {
            lemma_cap_at(shape, headings, rings, 0);
            lemma_cap_at(shape, headings, rings, k - w.len());
            lemma_ends_span(shape, headings, rings, chord, (k - w.len()) / 2);
            assert((w + c)[k] == c[k - w.len()]);
        }
    }
}

} // verus!
