//! The pieces that the water leaves of a triangle, measured against what is exactly under it.

use super::hydro::{below, crossing, lemma_crossing, lemma_part_way_between, magnitude};
use super::hydro::Triangle;
use super::reals::{lemma_at_least, lemma_equal, lemma_factors, lemma_spread, lemma_times_bound};
use super::share::{lemma_ratio, ratio, tip};
use super::tide::lemma_ratio_range;
use super::volume::{lemma_real_product, over};
use crate::geom::{part_way, Point};
use vstd::prelude::*;

verus! {

// ---- Crossings -----------------------------------------------------------------------

/// Whether `x` lies on the line through `p` and `q`, as seen from its height.
pub open spec fn on_edge(p: Point, q: Point, x: Point) -> bool {
    &&& (q.y - p.y) * (x.x - p.x) == (x.y - p.y) * (q.x - p.x)
    &&& (q.y - p.y) * (x.z - p.z) == (x.y - p.y) * (q.z - p.z)
}

/// Whether the water meets the edge from `p` to `q`, if at all, at a whole micrometre.
pub open spec fn meets_edge(p: Point, q: Point, level: i64) -> bool {
    below(p, level) != below(q, level) ==> on_edge(p, q, crossing(p, q, level))
}

/// Whether the water meets every edge of a triangle at a whole micrometre.
pub open spec fn meets_exactly(t: Triangle, level: i64) -> bool {
    meets_edge(t.a, t.b, level) && meets_edge(t.b, t.c, level) && meets_edge(t.c, t.a, level)
}

/// How far a coordinate of a crossing is off, by rounding.
proof fn lemma_slip(from: int, to: int, num: int, den: int, r: real) -> (e: real)
    requires
        0 <= num <= den,
        0 < den,
        r * (den as real) == num as real,
    ensures
        (part_way(from, to, num, den) - from) as real == r * ((to - from) as real) + e,
        -1real <= e <= 1real,
        den * (part_way(from, to, num, den) - from) == num * (to - from) ==> e == 0real,
{
    let (s, d) = (part_way(from, to, num, den) - from, to - from);
    let g = if from <= to { d } else { -d };
    let t = (g * num) / den;
    vstd::arithmetic::div_mod::lemma_fundamental_div_mod(g * num, den);
    let (x, y) = (s * den, num * d);
    assert(den * t == t * den && g * num == num * g) by (nonlinear_arith);
    if from <= to {
        assert(s == t);
    } else {
        assert(s == -t);
        assert((-t) * den == -(t * den)) by (nonlinear_arith);
        assert(num * (-d) == -(num * d)) by (nonlinear_arith);
    }
    assert(-den <= x - y <= den);
    lemma_real_product(s, den);
    lemma_real_product(num, d);
    let (sr, dr, nr, br) = (s as real, d as real, num as real, den as real);
    let e = sr - r * dr;
    let rd = r * dr;
    lemma_spread(br, sr, rd);
    lemma_factors(r, dr, br);
    lemma_spread(nr, dr, 0real);
    assert(e * br == (x - y) as real);
    assert(br > 0real);
    assert(1real * br == br && (-1real) * br == -br);
    lemma_at_least(1real, e, br);
    lemma_at_least(e, -1real, br);
    if den * s == num * d {
        assert(den * s == s * den) by (nonlinear_arith);
        assert(0real * br == 0real);
        lemma_equal(e, 0real, br);
    }
    e
}

/// Where the water meets an edge, within rounding.
proof fn lemma_crossing_slip(p: Point, q: Point, level: i64) -> (e: (real, real))
    requires
        below(p, level) != below(q, level),
        p.is_local(),
        q.is_local(),
    ensures
        ({
            let (x, r) = (crossing(p, q, level), ratio(over(p, level), over(q, level)));
            &&& x.y == level
            &&& (x.x - p.x) as real == r * ((q.x - p.x) as real) + e.0
            &&& (x.z - p.z) as real == r * ((q.z - p.z) as real) + e.1
            &&& p.x <= x.x <= q.x || q.x <= x.x <= p.x
            &&& p.z <= x.z <= q.z || q.z <= x.z <= p.z
        }),
        -1real <= e.0 <= 1real,
        -1real <= e.1 <= 1real,
        meets_edge(p, q, level) ==> e.0 == 0real && e.1 == 0real,
{
    let (u, v) = (over(p, level), over(q, level));
    let (x, r) = (crossing(p, q, level), ratio(u, v));
    let (num, den) = (magnitude(p.y - level), magnitude(p.y - q.y));
    lemma_crossing(p, q, level);
    lemma_part_way_between(p.x as int, q.x as int, num, den);
    lemma_part_way_between(p.z as int, q.z as int, num, den);
    lemma_ratio(u, v);
    let (nr, br) = (num as real, den as real);
    if p.y < q.y {
        let d = u - v;
        assert(r * (-d) == -(r * d)) by (nonlinear_arith);
        assert(br == -d && nr == -u);
    } else {
        assert(br == u - v && nr == u);
    }
    let e = lemma_slip(p.x as int, q.x as int, num, den, r);
    let g = lemma_slip(p.z as int, q.z as int, num, den, r);
    if meets_edge(p, q, level) {
        let (s, t, a, b) = (x.x - p.x, x.z - p.z, q.x - p.x, q.z - p.z);
        let (h, k) = (q.y - p.y, x.y - p.y);
        assert((-h) * s == -(h * s) && (-h) * t == -(h * t)) by (nonlinear_arith);
        assert((-k) * a == -(k * a) && (-k) * b == -(k * b)) by (nonlinear_arith);
    }
    (e, g)
}

// ---- Areas ---------------------------------------------------------------------------

/// Twice the area between `v`, `p` and `q`, seen from above.
spec fn span(v: Point, p: Point, q: Point) -> int {
    (p.z - v.z) * (q.x - v.x) - (p.x - v.x) * (q.z - v.z)
}

proof fn lemma_span(v: Point, p: Point, q: Point)
    ensures
        span(v, p, q) == -span(v, q, p),
        span(v, v, q) == 0,
        span(v, p, v) == 0,
        span(v, p, p) == 0,
        span(v, p, q) as real == ((p.z - v.z) as real) * ((q.x - v.x) as real) - ((p.x
            - v.x) as real) * ((q.z - v.z) as real),
{
    let (a, b, c, d) = (p.z - v.z, q.x - v.x, p.x - v.x, q.z - v.z);
    assert(a * b == b * a && c * d == d * c && a * c == c * a) by (nonlinear_arith);
    assert(0 * b == 0 && 0 * d == 0 && a * 0 == 0 && c * 0 == 0);
    lemma_real_product(a, b);
    lemma_real_product(c, d);
}

/// The area of a triangle, taken apart from `v`.
proof fn lemma_area_around(v: Point, t: Triangle)
    ensures
        t.area_y() == span(v, t.a, t.b) + span(v, t.b, t.c) + span(v, t.c, t.a),
{
    let (ax, az) = (t.a.x - v.x, t.a.z - v.z);
    let (bx, bz) = (t.b.x - v.x, t.b.z - v.z);
    let (cx, cz) = (t.c.x - v.x, t.c.z - v.z);
    assert((bz - az) * (cx - ax) == bz * cx - bz * ax - az * cx + az * ax) by (nonlinear_arith);
    assert((bx - ax) * (cz - az) == bx * cz - bx * az - ax * cz + ax * az) by (nonlinear_arith);
    assert(az * ax == ax * az && bz * ax == ax * bz && bx * az == az * bx) by (nonlinear_arith);
    assert(az * cx == cx * az && ax * cz == cz * ax) by (nonlinear_arith);
}

/// An area spanned by a vector that is `k` times another, but for `e`.
proof fn lemma_drawn(k: real, px: real, pz: real, ex: real, ez: real, qx: real, qz: real)
    ensures
        (k * pz + ez) * qx - (k * px + ex) * qz == k * (pz * qx - px * qz) + (ez * qx - ex * qz),
{
    let (a, b) = (k * pz, k * px);
    lemma_spread(qx, a, ez);
    lemma_spread(qz, b, ex);
    lemma_factors(k, pz, qx);
    lemma_factors(k, px, qz);
    lemma_spread(k, pz * qx, px * qz);
}

/// An area of which one side is as short as rounding makes it.
proof fn lemma_sliver(ex: real, ez: real, qx: real, qz: real, w: real, reach: real)
    requires
        -w <= ex <= w,
        -w <= ez <= w,
        -reach <= qx <= reach,
        -reach <= qz <= reach,
    ensures
        -(2real * (reach * w)) <= ez * qx - ex * qz <= 2real * (reach * w),
        -(2real * (reach * w)) <= qz * ex - qx * ez <= 2real * (reach * w),
{
    lemma_times_bound(qx, ez, reach, w);
    lemma_times_bound(qz, ex, reach, w);
    lemma_spread(ez, qx, 0real);
    lemma_spread(ex, qz, 0real);
}

/// The areas between a corner `v`, its neighbours, and where the water meets its two edges,
/// within rounding.
proof fn lemma_cut_areas(
    v: Point,
    n: Point,
    p: Point,
    x: Point,
    y: Point,
    l: real,
    m: real,
    e: (real, real),
    g: (real, real),
    w: real,
    reach: real,
)
    requires
        (x.x - v.x) as real == l * ((n.x - v.x) as real) + e.0,
        (x.z - v.z) as real == l * ((n.z - v.z) as real) + e.1,
        (y.x - v.x) as real == m * ((p.x - v.x) as real) + g.0,
        (y.z - v.z) as real == m * ((p.z - v.z) as real) + g.1,
        -w <= e.0 <= w,
        -w <= e.1 <= w,
        -w <= g.0 <= w,
        -w <= g.1 <= w,
        0real <= w,
        0real <= m <= 1real,
        -reach <= (n.x - v.x) as real <= reach,
        -reach <= (n.z - v.z) as real <= reach,
        -reach <= (p.x - v.x) as real <= reach,
        -reach <= (p.z - v.z) as real <= reach,
        -reach <= (x.x - v.x) as real <= reach,
        -reach <= (x.z - v.z) as real <= reach,
    ensures
        ({
            let (whole, c) = (span(v, n, p) as real, 2real * (reach * w));
            &&& -c <= span(v, x, n) as real <= c
            &&& -c <= span(v, x, p) as real - l * whole <= c
            &&& -c <= span(v, y, p) as real <= c
            &&& -c <= span(v, y, n) as real + m * whole <= c
            &&& -2real * c <= span(v, y, x) as real + (l * m) * whole <= 2real * c
        }),
{
    let (nx, nz) = ((n.x - v.x) as real, (n.z - v.z) as real);
    let (px, pz) = ((p.x - v.x) as real, (p.z - v.z) as real);
    let (xx, xz) = ((x.x - v.x) as real, (x.z - v.z) as real);
    let (whole, c) = (span(v, n, p) as real, 2real * (reach * w));
    lemma_span(v, n, p);
    lemma_span(v, p, n);
    lemma_span(v, x, n);
    lemma_span(v, x, p);
    lemma_span(v, p, x);
    lemma_span(v, y, p);
    lemma_span(v, y, n);
    lemma_span(v, y, x);
    lemma_drawn(l, nx, nz, e.0, e.1, nx, nz);
    lemma_drawn(l, nx, nz, e.0, e.1, px, pz);
    lemma_drawn(m, px, pz, g.0, g.1, px, pz);
    lemma_drawn(m, px, pz, g.0, g.1, nx, nz);
    lemma_drawn(m, px, pz, g.0, g.1, xx, xz);
    lemma_sliver(e.0, e.1, nx, nz, w, reach);
    lemma_sliver(e.0, e.1, px, pz, w, reach);
    lemma_sliver(g.0, g.1, px, pz, w, reach);
    lemma_sliver(g.0, g.1, nx, nz, w, reach);
    lemma_sliver(g.0, g.1, xx, xz, w, reach);
    lemma_spread(nz, nx, 0real);
    lemma_spread(pz, px, 0real);
    assert(l * 0real == 0real && m * 0real == 0real);
    let back = -whole;
    lemma_spread(m, whole, 0real);
    // The last area is drawn in twice.
    let off = span(v, x, p) as real - l * whole;
    let lw = l * whole;
    let px_span = span(v, p, x) as real;
    assert(px_span == -(lw + off));
    lemma_spread(m, lw + off, 0real);
    lemma_spread(m, lw, off);
    lemma_factors(l, m, whole);
    lemma_times_bound(m, off, 1real, c);
    assert(1real * c == c);
}

proof fn lemma_two_pieces(
    s: real,
    h: real,
    a: real,
    b: real,
    c: real,
    d: real,
    whole: real,
    reach: real,
    w: real,
)
    requires
        -2real * reach <= s <= 2real * reach,
        -reach <= h <= reach,
        -4real * (reach * w) <= a - c * whole <= 4real * (reach * w),
        -8real * (reach * w) <= b - d * whole <= 8real * (reach * w),
    ensures
        -16real * (reach * (reach * w)) <= s * a + h * b - whole * (s * c + h * d) <= 16real * (reach
            * (reach * w)),
{
    let (f, g, k) = (a - c * whole, b - d * whole, reach * w);
    let (cw, dw) = (c * whole, d * whole);
    lemma_times_bound(s, f, 2real * reach, 4real * k);
    lemma_times_bound(h, g, reach, 8real * k);
    assert((2real * reach) * (4real * k) == 8real * (reach * k)) by (nonlinear_arith);
    assert(reach * (8real * k) == 8real * (reach * k)) by (nonlinear_arith);
    lemma_spread(s, cw, f);
    lemma_spread(h, dw, g);
    lemma_factors(s, c, whole);
    lemma_factors(h, d, whole);
    lemma_spread(whole, s * c, h * d);
}

/// What is left of a triangle when the corner at height `u` is cut off it, either way.
proof fn lemma_rest_of_heights(u: real, a: real, b: real, l: real, m: real)
    requires
        u - u * l == -(l * a),
        u - u * m == -(m * b),
    ensures
        (a + b) * (1real - l) + b * (l * (1real - m)) == u + a + b - u * (l * m),
        (a + b) * (1real - m) + a * (m * (1real - l)) == u + a + b - u * (l * m),
{
    lemma_rest_one_way(u, a, b, l, m);
    lemma_rest_one_way(u, b, a, m, l);
    lemma_spread(m, l, 0real);
}

proof fn lemma_rest_one_way(u: real, a: real, b: real, l: real, m: real)
    requires
        u - u * l == -(l * a),
        u - u * m == -(m * b),
    ensures
        (a + b) * (1real - l) + b * (l * (1real - m)) == u + a + b - u * (l * m),
{
    lemma_spread(a + b, 1real, l);
    lemma_spread(l, a, b);
    lemma_spread(l, a + b, 0real);
    lemma_spread(l, 1real, m);
    lemma_spread(b, l, l * m);
    lemma_spread(b, l, 0real);
    lemma_factors(b, l, m);
    lemma_factors(l, m, b);
    assert((a + b) * 1real == a + b && l * 1real == l);
    let (um, mb) = (u * m, m * b);
    lemma_spread(l, um, u);
    lemma_spread(l, u, 0real);
    lemma_factors(l, u, m);
    assert(mb == um - u);
}

// ---- What is left of a triangle ------------------------------------------------------

/// What a triangle adds to six times a volume, however small it is.
pub open spec fn full_part(t: Triangle, level: i64) -> int {
    (t.a.y + t.b.y + t.c.y - 3 * level) * t.area_y()
}

/// Whether a triangle lies within `reach` of the water, and is no wider than that.
pub open spec fn near(t: Triangle, level: i64, reach: int) -> bool {
    &&& close(t.a, t.b, level, reach)
    &&& close(t.b, t.c, level, reach)
    &&& close(t.c, t.a, level, reach)
}

/// Whether the ends of an edge are close to each other, and its start to the water.
pub open spec fn close(p: Point, q: Point, level: i64, reach: int) -> bool {
    &&& -reach <= p.y - level <= reach
    &&& -reach <= p.x - q.x <= reach
    &&& -reach <= p.z - q.z <= reach
}

proof fn lemma_full_part(t: Triangle, v: Point, level: i64)
    ensures
        full_part(t, level) as real == (over(t.a, level) + over(t.b, level) + over(t.c, level))
            * (t.area_y() as real),
        t.area_y() == span(v, t.a, t.b) + span(v, t.b, t.c) + span(v, t.c, t.a),
{
    lemma_area_around(v, t);
    lemma_real_product(t.a.y + t.b.y + t.c.y - 3 * level, t.area_y());
}

/// What rounding can make of the pieces of a triangle.
pub open spec fn blur(reach: int, exact: bool) -> real {
    if exact {
        0real
    } else {
        16real * ((reach as real) * (reach as real))
    }
}

/// The pieces of a triangle of which one corner `v` lies on its own side of the water.
pub(crate) proof fn lemma_corner(v: Point, n: Point, p: Point, level: i64, reach: int, exact: bool)
    requires
        v.is_local(),
        n.is_local(),
        p.is_local(),
        below(v, level) != below(n, level),
        below(p, level) == below(n, level),
        near(Triangle { a: v, b: n, c: p }, level, reach),
        exact ==> meets_edge(v, n, level) && meets_edge(p, v, level),
    ensures
        ({
            let t = Triangle { a: v, b: n, c: p };
            let (x, y) = (crossing(v, n, level), crossing(p, v, level));
            let (u, a, b) = (over(v, level), over(n, level), over(p, level));
            let point = (t.area_y() as real) * tip(u, a, b);
            let rest = (t.area_y() as real) * (u + a + b - tip(u, a, b));
            let one = full_part(Triangle { a: v, b: x, c: y }, level) as real;
            let two = full_part(Triangle { a: x, b: n, c: p }, level) as real + full_part(
                Triangle { a: x, b: p, c: y },
                level,
            ) as real;
            let other = full_part(Triangle { a: n, b: p, c: y }, level) as real + full_part(
                Triangle { a: n, b: y, c: x },
                level,
            ) as real;
            let d = blur(reach, exact);
            &&& -d <= one - point <= d
            &&& -d <= two - rest <= d
            &&& -d <= other - rest <= d
        }),
{
    let t = Triangle { a: v, b: n, c: p };
    let (x, y) = (crossing(v, n, level), crossing(p, v, level));
    let (u, a, b) = (over(v, level), over(n, level), over(p, level));
    let (l, m) = (ratio(u, a), ratio(u, b));
    let (w, r) = (if exact { 0real } else { 1real }, reach as real);
    let e = lemma_crossing_slip(v, n, level);
    let g = lemma_crossing_slip(p, v, level);
    lemma_ratio(u, a);
    lemma_ratio(u, b);
    let (px, pz) = ((p.x - v.x) as real, (p.z - v.z) as real);
    lemma_spread(-px, 1real, m);
    lemma_spread(-pz, 1real, m);
    lemma_spread(m, px, 0real);
    lemma_spread(m, pz, 0real);
    assert(1real * (-px) == -px && 1real * (-pz) == -pz);
    assert((v.x - p.x) as real == -px && (v.z - p.z) as real == -pz);
    assert((y.x - v.x) as real == m * px + g.0);
    assert((y.z - v.z) as real == m * pz + g.1);
    if u <= 0real {
        lemma_ratio_range(u, b);
    } else {
        lemma_ratio_range(b, u);
        lemma_ratio(b, u);
    }
    lemma_cut_areas(v, n, p, x, y, l, m, e, g, w, r);
    let (one, two) = (Triangle { a: v, b: x, c: y }, Triangle { a: x, b: n, c: p });
    let (three, four) = (Triangle { a: x, b: p, c: y }, Triangle { a: n, b: p, c: y });
    let five = Triangle { a: n, b: y, c: x };
    lemma_full_part(t, v, level);
    lemma_full_part(one, v, level);
    lemma_full_part(two, v, level);
    lemma_full_part(three, v, level);
    lemma_full_part(four, v, level);
    lemma_full_part(five, v, level);
    lemma_span(v, n, x);
    lemma_span(v, x, n);
    lemma_span(v, x, y);
    lemma_span(v, x, p);
    lemma_span(v, p, x);
    lemma_span(v, p, y);
    lemma_span(v, n, y);
    lemma_span(v, v, n);
    lemma_span(v, p, v);
    let whole = span(v, n, p) as real;
    let k = r * w;
    assert(over(x, level) == 0real && over(y, level) == 0real);
    // The corner itself.
    let lm = l * m;
    lemma_two_pieces(0real, u, 0real, one.area_y() as real, 0real, lm, whole, r, w);
    assert(0real * 0real == 0real);
    assert(whole * (u * lm) == whole * (0real * 0real + u * lm));
    // The rest, cut one way or the other.
    let s = a + b;
    lemma_spread(whole, 1real, l);
    lemma_spread(l, 1real, m);
    lemma_spread(whole, l, l * m);
    assert(1real * whole == whole && l * 1real == l);
    lemma_two_pieces(
        s,
        b,
        two.area_y() as real,
        three.area_y() as real,
        1real - l,
        l * (1real - m),
        whole,
        r,
        w,
    );
    lemma_spread(whole, 1real, m);
    lemma_spread(m, 1real, l);
    lemma_spread(whole, m, m * l);
    lemma_spread(m, l, 0real);
    assert(m * 1real == m);
    lemma_two_pieces(
        s,
        a,
        four.area_y() as real,
        five.area_y() as real,
        1real - m,
        m * (1real - l),
        whole,
        r,
        w,
    );
    lemma_rest_of_heights(u, a, b, l, m);
    assert(r * 1real == r && r * 0real == 0real);
}

/// A triangle does not depend on the corner with which it begins.
pub(crate) proof fn lemma_turned(t: Triangle, level: i64)
    ensures
        (Triangle { a: t.b, b: t.c, c: t.a }).area_y() == t.area_y(),
        full_part((Triangle { a: t.b, b: t.c, c: t.a }), level) == full_part(t, level),
{
    lemma_area_around(t.a, t);
    lemma_area_around(t.a, Triangle { a: t.b, b: t.c, c: t.a });
}

} // verus!
