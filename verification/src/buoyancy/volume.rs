//! The volume under the water of the solid that a mesh encloses.

use super::hydro::{below, Triangle};
use super::reals::{lemma_factors, lemma_order, lemma_spread};
use super::share::{lemma_share_even, lemma_sunk_even, lemma_swap, share, sunk};
use super::solid::{covered, dry, edges, evens_out, sealed};
use super::tide::{lemma_share_range, lemma_share_rises};
use crate::geom::Point;
use vstd::prelude::*;

verus! {

/// How high `p` stands above the water.
pub open spec fn over(p: Point, level: i64) -> real {
    (p.y - level) as real
}

/// Six times the volume of the tetrahedron between `o` and a triangle, which is negative
/// where the triangle faces `o`.
pub open spec fn cone(o: Point, t: Triangle) -> int {
    t.area_x() * (t.a.x - o.x) + t.area_y() * (t.a.y - o.y) + t.area_z() * (t.a.z - o.z)
}

/// Six times the volume under water of the tetrahedron between `o` and a triangle.
pub open spec fn wet_cone(o: Point, t: Triangle, level: i64) -> real {
    (cone(o, t) as real) * share(
        over(t.a, level),
        over(t.b, level),
        over(t.c, level),
        over(o, level),
    )
}

/// Six times the volume under water of the solid that the triangles enclose: it is made up of
/// the tetrahedra between them and `o`, wherever `o` is.
pub open spec fn wet_volume(tris: Seq<Triangle>, o: Point, level: i64) -> real
    decreases tris.len(),
{
    if tris.len() == 0 {
        0real
    } else {
        wet_volume(tris.drop_last(), o, level) + wet_cone(o, tris.last(), level)
    }
}

/// What a triangle adds to six times the volume between its wet part and the water.
pub open spec fn wet_face(t: Triangle, level: i64) -> real {
    (t.area_y() as real) * sunk(over(t.a, level), over(t.b, level), over(t.c, level))
}

pub open spec fn wet_faces(tris: Seq<Triangle>, level: i64) -> real
    decreases tris.len(),
{
    if tris.len() == 0 {
        0real
    } else {
        wet_faces(tris.drop_last(), level) + wet_face(tris.last(), level)
    }
}

// ---- A tetrahedron and its faces -----------------------------------------------------

pub(crate) proof fn lemma_real_product(a: int, b: int)
    ensures
        (a * b) as real == (a as real) * (b as real),
    decreases (if a >= 0 { a } else { -a }),
{
    if a == 0 {
        assert(0 * b == 0);
        assert(0real * (b as real) == 0real);
    } else if a > 0 {
        lemma_real_product(a - 1, b);
        assert(a * b == (a - 1) * b + b) by (nonlinear_arith);
        let (x, y) = ((a - 1) as real, b as real);
        assert((x + 1real) * y == x * y + y) by (nonlinear_arith);
        assert(a as real == x + 1real);
    } else {
        lemma_real_product(a + 1, b);
        assert(a * b == (a + 1) * b - b) by (nonlinear_arith);
        let (x, y) = ((a + 1) as real, b as real);
        assert((x - 1real) * y == x * y - y) by (nonlinear_arith);
        assert(a as real == x - 1real);
    }
}

proof fn lemma_six_terms(k: int, p: int, q: int, r: int, s: int, t: int, u: int)
    ensures
        k * (p - q - r - s + t + u) == k * p - k * q - k * r - k * s + k * t + k * u,
{
    assert(k * (p - q - r - s + t + u) == k * p - k * q - k * r - k * s + k * t + k * u)
        by (nonlinear_arith);
}

proof fn lemma_minor(by: int, ay: int, cz: int, az: int, bz: int, cy: int)
    ensures
        (by - ay) * (cz - az) - (bz - az) * (cy - ay) == by * cz - by * az - ay * cz - bz * cy + bz
            * ay + az * cy,
{
    assert((by - ay) * (cz - az) == by * cz - by * az - ay * cz + ay * az) by (nonlinear_arith);
    assert((bz - az) * (cy - ay) == bz * cy - bz * ay - az * cy + ay * az) by (nonlinear_arith);
}

pub(crate) proof fn lemma_turns(a: int, b: int, c: int)
    ensures
        a * (b * c) == b * (a * c),
        a * (b * c) == c * (b * a),
        a * (b * c) == b * (c * a),
        a * (b * c) == c * (a * b),
        a * (b * c) == a * (c * b),
{
    assert(a * (b * c) == b * (a * c)) by (nonlinear_arith);
    assert(a * (b * c) == c * (b * a)) by (nonlinear_arith);
    assert(a * (b * c) == b * (c * a)) by (nonlinear_arith);
    assert(a * (b * c) == c * (a * b)) by (nonlinear_arith);
    assert(a * (b * c) == a * (c * b)) by (nonlinear_arith);
}

/// The areas of the four faces of a tetrahedron, seen from above.
pub(crate) proof fn lemma_cone_areas(o: Point, t: Triangle)
    ensures
        ({
            let n = Triangle { a: o, b: t.c, c: t.b }.area_y();
            let p = Triangle { a: o, b: t.a, c: t.c }.area_y();
            let q = Triangle { a: o, b: t.b, c: t.a }.area_y();
            &&& t.area_y() + n + p + q == 0
            &&& cone(o, t) == -((t.a.y - o.y) * n + (t.b.y - o.y) * p + (t.c.y - o.y) * q)
        }),
{
    let (ax, ay, az) = (t.a.x - o.x, t.a.y - o.y, t.a.z - o.z);
    let (bx, by, bz) = (t.b.x - o.x, t.b.y - o.y, t.b.z - o.z);
    let (cx, cy, cz) = (t.c.x - o.x, t.c.y - o.y, t.c.z - o.z);
    let n = cz * bx - cx * bz;
    let p = az * cx - ax * cz;
    let q = bz * ax - bx * az;
    lemma_minor(by, ay, cz, az, bz, cy);
    lemma_minor(bz, az, cx, ax, bx, cz);
    lemma_minor(bx, ax, cy, ay, by, cx);
    assert(t.area_x() == by * cz - by * az - ay * cz - bz * cy + bz * ay + az * cy);
    assert(t.area_y() == bz * cx - bz * ax - az * cx - bx * cz + bx * az + ax * cz);
    assert(t.area_z() == bx * cy - bx * ay - ax * cy - by * cx + by * ax + ay * cx);
    assert(cz * bx == bx * cz && cx * bz == bz * cx) by (nonlinear_arith);
    lemma_six_terms(ax, by * cz, by * az, ay * cz, bz * cy, bz * ay, az * cy);
    lemma_six_terms(ay, bz * cx, bz * ax, az * cx, bx * cz, bx * az, ax * cz);
    lemma_six_terms(az, bx * cy, bx * ay, ax * cy, by * cx, by * ax, ay * cx);
    assert(t.area_x() * ax == ax * t.area_x() && t.area_y() * ay == ay * t.area_y() && t.area_z()
        * az == az * t.area_z()) by (nonlinear_arith);
    lemma_turns(ax, by, cz);
    lemma_turns(ax, by, az);
    lemma_turns(ax, ay, cz);
    lemma_turns(ax, bz, cy);
    lemma_turns(ax, bz, ay);
    lemma_turns(ax, az, cy);
    lemma_turns(ay, bz, cx);
    lemma_turns(ay, az, cx);
    lemma_turns(ay, bx, cz);
    lemma_turns(ay, bx, az);
    lemma_turns(az, bx, cy);
    lemma_turns(az, by, cx);
    assert(ay * n == ay * (cz * bx) - ay * (cx * bz)) by (nonlinear_arith)
        requires
            n == cz * bx - cx * bz,
    ;
    assert(by * p == by * (az * cx) - by * (ax * cz)) by (nonlinear_arith)
        requires
            p == az * cx - ax * cz,
    ;
    assert(cy * q == cy * (bz * ax) - cy * (bx * az)) by (nonlinear_arith)
        requires
            q == bz * ax - bx * az,
    ;
}

/// What is under water of a tetrahedron is what its four faces add to that.
proof fn lemma_cone_faces(o: Point, t: Triangle, level: i64)
    ensures
        wet_cone(o, t, level) == wet_face(t, level) + wet_face(
            Triangle { a: o, b: t.b, c: t.a },
            level,
        ) + wet_face(Triangle { a: o, b: t.c, c: t.b }, level) + wet_face(
            Triangle { a: o, b: t.a, c: t.c },
            level,
        ),
{
    let (a, b, c, z) = (over(t.a, level), over(t.b, level), over(t.c, level), over(o, level));
    let (s, w) = (share(a, b, c, z), sunk(a, b, c));
    let n = Triangle { a: o, b: t.c, c: t.b }.area_y();
    let p = Triangle { a: o, b: t.a, c: t.c }.area_y();
    let q = Triangle { a: o, b: t.b, c: t.a }.area_y();
    lemma_cone_areas(o, t);
    lemma_swap(a, b, c, z);
    lemma_swap(b, a, c, z);
    lemma_swap(c, b, a, z);
    lemma_share_even(a, b, c, z);
    lemma_sunk_even(a, b, c);
    lemma_sunk_even(z, b, c);
    lemma_real_product(t.a.y - o.y, n);
    lemma_real_product(t.b.y - o.y, p);
    lemma_real_product(t.c.y - o.y, q);
    let (nr, pr, qr, tr) = (n as real, p as real, q as real, t.area_y() as real);
    let (u, v, x) = (a - z, b - z, c - z);
    assert(u == (t.a.y - o.y) as real && v == (t.b.y - o.y) as real && x == (t.c.y - o.y) as real);
    assert(tr + nr + pr + qr == 0real);
    assert(cone(o, t) as real == -(u * nr + v * pr + x * qr));
    lemma_against(nr, w, u, s);
    lemma_against(pr, w, v, s);
    lemma_against(qr, w, x, s);
    let (un, vp, xq) = (u * nr, v * pr, x * qr);
    lemma_spread(s, un + vp + xq, 0real);
    lemma_spread(s, un + vp, xq);
    lemma_spread(s, un, vp);
    lemma_spread(w, tr + nr + pr, qr);
    lemma_spread(w, tr + nr, pr);
    lemma_spread(w, tr, nr);
    assert(0real * w == 0real);
}

proof fn lemma_against(n: real, w: real, u: real, s: real)
    ensures
        n * (w - u * s) == n * w - (u * n) * s,
{
    lemma_spread(n, w, u * s);
    lemma_factors(n, u, s);
}

// ---- Sums over edges -----------------------------------------------------------------

/// The sum of `f` over the edges.
spec fn measure(e: Seq<(Point, Point)>, f: spec_fn(Point, Point) -> real) -> real
    decreases e.len(),
{
    if e.len() == 0 {
        0real
    } else {
        measure(e.drop_last(), f) + f(e.last().0, e.last().1)
    }
}

spec fn turns_sign(f: spec_fn(Point, Point) -> real) -> bool {
    forall|p: Point, q: Point| #[trigger] f(p, q) == -f(q, p)
}

proof fn lemma_measure_without(e: Seq<(Point, Point)>, f: spec_fn(Point, Point) -> real, i: int)
    requires
        0 <= i < e.len(),
    ensures
        measure(e, f) == measure(e.remove(i), f) + f(e[i].0, e[i].1),
    decreases e.len(),
{
    if i == e.len() - 1 {
        assert(e.remove(i) =~= e.drop_last());
    } else {
        lemma_measure_without(e.drop_last(), f, i);
        assert(e.remove(i).drop_last() =~= e.drop_last().remove(i));
        assert(e.remove(i).last() == e.last());
    }
}

/// Over edges that even out, whatever turns its sign comes to nothing.
proof fn lemma_measure_evens_out(e: Seq<(Point, Point)>, f: spec_fn(Point, Point) -> real)
    requires
        evens_out(e),
        turns_sign(f),
    ensures
        measure(e, f) == 0real,
    decreases e.len(),
{
    broadcast use vstd::seq_lib::group_to_multiset_ensures;

    if e.len() > 0 {
        let n = e.len() - 1;
        let (p, q) = e.last();
        let rest = e.drop_last();
        assert(rest =~= e.remove(n));
        assert(rest.to_multiset() =~= e.to_multiset().remove((p, q)));
        assert(f(p, q) == -f(q, p));
        if p == q {
            assert(evens_out(rest)) by {
                assert forall|x: Point, y: Point| #[trigger]
                    rest.to_multiset().count((x, y)) == rest.to_multiset().count((y, x)) by {
                    assert(e.to_multiset().count((x, y)) == e.to_multiset().count((y, x)));
                }
            }
            lemma_measure_evens_out(rest, f);
        } else {
            assert(e[n] == (p, q));
            assert(e.contains((p, q)));
            assert(e.to_multiset().count((p, q)) > 0);
            assert(e.to_multiset().count((p, q)) == e.to_multiset().count((q, p)));
            assert(rest.to_multiset().count((q, p)) == e.to_multiset().count((q, p)));
            assert(rest.contains((q, p)));
            let j = choose|j: int| 0 <= j < rest.len() && rest[j] == (q, p);
            let less = rest.remove(j);
            assert(less.to_multiset() =~= rest.to_multiset().remove((q, p)));
            assert(evens_out(less)) by {
                assert forall|x: Point, y: Point| #[trigger]
                    less.to_multiset().count((x, y)) == less.to_multiset().count((y, x)) by {
                    assert(e.to_multiset().count((x, y)) == e.to_multiset().count((y, x)));
                }
            }
            lemma_measure_without(rest, f, j);
            lemma_measure_evens_out(less, f);
        }
    }
}

/// What the face between `o` and an edge adds.
spec fn inner_face(o: Point, level: i64) -> spec_fn(Point, Point) -> real {
    |p: Point, q: Point| wet_face(Triangle { a: o, b: q, c: p }, level)
}

proof fn lemma_inner_face_turns(o: Point, level: i64)
    ensures
        turns_sign(inner_face(o, level)),
{
    let f = inner_face(o, level);
    assert forall|p: Point, q: Point| #[trigger] f(p, q) == -f(q, p) by {
        let (s, t) = (Triangle { a: o, b: q, c: p }, Triangle { a: o, b: p, c: q });
        lemma_sunk_even(over(o, level), over(q, level), over(p, level));
        let (x, y, z, w) = (q.z - o.z, p.x - o.x, q.x - o.x, p.z - o.z);
        assert(x * y == y * x && z * w == w * z) by (nonlinear_arith);
        assert(s.area_y() == -t.area_y());
        let (m, k) = (t.area_y() as real, sunk(over(o, level), over(p, level), over(q, level)));
        lemma_spread(k, m, 0real);
    }
}

proof fn lemma_cones_by_faces(tris: Seq<Triangle>, o: Point, level: i64)
    ensures
        wet_volume(tris, o, level) == wet_faces(tris, level) + measure(
            edges(tris),
            inner_face(o, level),
        ),
    decreases tris.len(),
{
    let f = inner_face(o, level);
    if tris.len() > 0 {
        let (t, e) = (tris.last(), edges(tris.drop_last()));
        lemma_cones_by_faces(tris.drop_last(), o, level);
        lemma_cone_faces(o, t, level);
        let (one, two) = (e.push((t.a, t.b)), e.push((t.a, t.b)).push((t.b, t.c)));
        assert(one.drop_last() =~= e);
        assert(two.drop_last() =~= one);
        assert(two.push((t.c, t.a)).drop_last() =~= two);
        assert(edges(tris) =~= two.push((t.c, t.a)));
        assert(measure(one, f) == measure(e, f) + f(t.a, t.b));
        assert(measure(two, f) == measure(one, f) + f(t.b, t.c));
        assert(measure(edges(tris), f) == measure(two, f) + f(t.c, t.a));
    }
}

/// Of a sealed mesh, the faces inside cancel, so that the solid is measured by its skin.
pub(crate) proof fn lemma_skin_measures(tris: Seq<Triangle>, o: Point, level: i64)
    requires
        sealed(tris),
    ensures
        wet_volume(tris, o, level) == wet_faces(tris, level),
{
    lemma_cones_by_faces(tris, o, level);
    lemma_inner_face_turns(o, level);
    lemma_measure_evens_out(edges(tris), inner_face(o, level));
}

/// The volume under water of a solid does not depend on the point from which it is taken apart.
pub proof fn law_any_centre_gives_the_volume(tris: Seq<Triangle>, o: Point, p: Point, level: i64)
    requires
        sealed(tris),
    ensures
        wet_volume(tris, o, level) == wet_volume(tris, p, level),
{
    lemma_skin_measures(tris, o, level);
    lemma_skin_measures(tris, p, level);
}

/// Six times the volume of the whole solid.
pub open spec fn whole_volume(tris: Seq<Triangle>, o: Point) -> int
    decreases tris.len(),
{
    if tris.len() == 0 {
        0
    } else {
        whole_volume(tris.drop_last(), o) + cone(o, tris.last())
    }
}

/// All of a solid under the water is under it, and nothing of one above it.
pub proof fn law_all_or_nothing_of_a_solid(tris: Seq<Triangle>, o: Point, level: i64)
    ensures
        below(o, level) && (forall|i: int| 0 <= i < tris.len() ==> covered(#[trigger] tris[i], level))
            ==> wet_volume(tris, o, level) == whole_volume(tris, o) as real,
        !below(o, level) && (forall|i: int| 0 <= i < tris.len() ==> dry(#[trigger] tris[i], level))
            ==> wet_volume(tris, o, level) == 0real,
    decreases tris.len(),
{
    reveal(share);
    if tris.len() > 0 {
        let (before, t) = (tris.drop_last(), tris[tris.len() - 1]);
        law_all_or_nothing_of_a_solid(before, o, level);
        let n = cone(o, t) as real;
        assert(n * 1real == n && n * 0real == 0real);
        if forall|i: int| 0 <= i < tris.len() ==> covered(#[trigger] tris[i], level) {
            assert forall|i: int| 0 <= i < before.len() implies covered(#[trigger] before[i], level) by {
                assert(before[i] == tris[i]);
            }
            assert(covered(t, level));
        }
        if forall|i: int| 0 <= i < tris.len() ==> dry(#[trigger] tris[i], level) {
            assert forall|i: int| 0 <= i < before.len() implies dry(#[trigger] before[i], level) by {
                assert(before[i] == tris[i]);
            }
            assert(dry(t, level));
        }
    }
}

// ---- Rising water --------------------------------------------------------------------

/// Whether every triangle faces away from `o`, or towards no side of it.
pub open spec fn faces_away(tris: Seq<Triangle>, o: Point) -> bool {
    forall|i: int| 0 <= i < tris.len() ==> cone(o, #[trigger] tris[i]) >= 0
}

/// How far a triangle is turned in towards `o`: six times the volume between the two.
pub open spec fn dent(o: Point, t: Triangle) -> int {
    if cone(o, t) < 0 {
        -cone(o, t)
    } else {
        0
    }
}

/// Six times the volume of all dents in a mesh, seen from `o`.
pub open spec fn dents(tris: Seq<Triangle>, o: Point) -> int
    decreases tris.len(),
{
    if tris.len() == 0 {
        0
    } else {
        dents(tris.drop_last(), o) + dent(o, tris.last())
    }
}

/// A mesh that faces away from a point has no dents, seen from there.
pub proof fn law_a_mesh_that_faces_away_has_no_dents(tris: Seq<Triangle>, o: Point)
    requires
        faces_away(tris, o),
    ensures
        dents(tris, o) == 0,
    decreases tris.len(),
{
    if tris.len() > 0 {
        let before = tris.drop_last();
        assert(faces_away(before, o)) by {
            assert forall|i: int| 0 <= i < before.len() implies cone(o, #[trigger] before[i]) >= 0 by {
                assert(before[i] == tris[i]);
            }
        }
        law_a_mesh_that_faces_away_has_no_dents(before, o);
        assert(cone(o, tris[tris.len() - 1]) >= 0);
    }
}

/// No less of a solid is under water when the water rises, but for the dents in it.
pub proof fn law_no_less_is_under_rising_water(tris: Seq<Triangle>, o: Point, k: i64, l: i64)
    requires
        k <= l,
    ensures
        wet_volume(tris, o, k) <= wet_volume(tris, o, l) + (dents(tris, o) as real),
    decreases tris.len(),
{
    if tris.len() > 0 {
        let t = tris.last();
        law_no_less_is_under_rising_water(tris.drop_last(), o, k, l);
        let (a, b, c, z) = (over(t.a, k), over(t.b, k), over(t.c, k), over(o, k));
        let d = (l - k) as real;
        lemma_share_rises(a, b, c, z, d);
        lemma_share_range(a, b, c, z);
        lemma_share_range(a - d, b - d, c - d, z - d);
        assert(over(t.a, l) == a - d && over(t.b, l) == b - d);
        assert(over(t.c, l) == c - d && over(o, l) == z - d);
        let (n, x, y) = (
            cone(o, t) as real,
            share(a, b, c, z),
            share(a - d, b - d, c - d, z - d),
        );
        if cone(o, t) >= 0 {
            lemma_order(n, x, y);
        } else {
            lemma_order(-n, y - x, 1real);
            lemma_spread(-n, y, x);
            lemma_spread(x, n, 0real);
            lemma_spread(y, n, 0real);
            assert((-n) * 1real == -n);
        }
    }
}

} // verus!
