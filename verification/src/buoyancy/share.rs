//! How much of a solid is under water, by the heights of its corners above it.
//!
//! A corner is wet where its height is not positive.

use super::reals::{lemma_equal, lemma_factors, lemma_four_factors, lemma_positive, lemma_spread};
use vstd::prelude::*;

verus! {

pub open spec fn wet(u: real) -> bool {
    u <= 0real
}

/// The part of the way from a corner at height `u` to one at height `v`, on the other side of
/// the water, that lies on the first one's side.
pub open spec fn ratio(u: real, v: real) -> real {
    u / (u - v)
}

/// The share of a tetrahedron on that side of the water on which `x` is the only corner.
pub open spec fn lone(x: real, y: real, z: real, t: real) -> real {
    ratio(x, y) * ratio(x, z) * ratio(x, t)
}

/// The share under water of a tetrahedron of which the water cuts four edges, from the parts
/// of them that are wet: from the first wet corner to the two dry ones, and from the second.
/// Where the first of these edges meets the water the tetrahedron parts into two that have a
/// corner there.
pub open spec fn mix(a: real, b: real, c: real, d: real) -> real {
    a * (1real - (1real - b) * (1real - d)) + (1real - a) * (c * d)
}

/// The share under water of a tetrahedron with the wet corners `u` and `v` and the dry ones
/// `w` and `z`.
pub open spec fn pair(u: real, v: real, w: real, z: real) -> real {
    mix(ratio(u, w), ratio(u, z), ratio(v, w), ratio(v, z))
}

/// The share under water of a tetrahedron with corners at these heights.
#[verifier::opaque]
pub open spec fn share(a: real, b: real, c: real, d: real) -> real {
    match (wet(a), wet(b), wet(c), wet(d)) {
        (true, true, true, true) => 1real,
        (false, false, false, false) => 0real,
        (true, false, false, false) => lone(a, b, c, d),
        (false, true, false, false) => lone(b, a, c, d),
        (false, false, true, false) => lone(c, a, b, d),
        (false, false, false, true) => lone(d, a, b, c),
        (false, true, true, true) => 1real - lone(a, b, c, d),
        (true, false, true, true) => 1real - lone(b, a, c, d),
        (true, true, false, true) => 1real - lone(c, a, b, d),
        (true, true, true, false) => 1real - lone(d, a, b, c),
        (true, true, false, false) => pair(a, b, c, d),
        (true, false, true, false) => pair(a, c, b, d),
        (true, false, false, true) => pair(a, d, b, c),
        (false, true, true, false) => pair(b, c, a, d),
        (false, true, false, true) => pair(b, d, a, c),
        (false, false, true, true) => pair(c, d, a, b),
    }
}

/// The height of `x`, times the share of a triangle on its side of the water, where it is the
/// only corner.
pub open spec fn tip(x: real, y: real, z: real) -> real {
    x * (ratio(x, y) * ratio(x, z))
}

/// Three times the mean height of the wet part of a triangle with corners at these heights,
/// times the share of it that is wet.
pub open spec fn sunk(a: real, b: real, c: real) -> real {
    match (wet(a), wet(b), wet(c)) {
        (true, true, true) => a + b + c,
        (false, false, false) => 0real,
        (true, false, false) => tip(a, b, c),
        (false, true, false) => tip(b, a, c),
        (false, false, true) => tip(c, a, b),
        (false, true, true) => a + b + c - tip(a, b, c),
        (true, false, true) => a + b + c - tip(b, a, c),
        (true, true, false) => a + b + c - tip(c, a, b),
    }
}

// ---- Parts of an edge ----------------------------------------------------------------

pub(crate) proof fn lemma_ratio(u: real, v: real)
    requires
        u != v,
    ensures
        ratio(u, v) * (u - v) == u,
        u - u * ratio(u, v) == -(ratio(u, v) * v),
        ratio(v, u) == 1real - ratio(u, v),
{
    let (d, r, s) = (u - v, ratio(u, v), ratio(v, u));
    assert(r * d == u) by (nonlinear_arith)
        requires
            r == u / d,
            d != 0real,
    ;
    lemma_spread(r, u, v);
    let e = v - u;
    assert(s * e == v) by (nonlinear_arith)
        requires
            s == v / e,
            e != 0real,
    ;
    lemma_spread(e, 1real, r);
    lemma_spread(r, d, 0real);
    assert(e == -d && e * 1real == e);
    lemma_spread(e, 1real - r, 0real);
    lemma_equal(1real - r, s, e);
}

// ---- Tetrahedra cut across four edges ------------------------------------------------

proof fn lemma_mix(a: real, b: real, c: real, d: real)
    ensures
        mix(a, b, c, d) == a * b + a * d + c * d - (a * d) * b - (a * d) * c,
{
    lemma_both_less(b, d);
    let (bd, cd) = (b * d, c * d);
    lemma_spread(a, b, d);
    lemma_spread(a, b + d, bd);
    lemma_factors(a, b, d);
    lemma_rest(cd, a);
    lemma_spread(1real - a, cd, 0real);
    lemma_spread(a, cd, 0real);
    lemma_factors(a, c, d);
}

proof fn lemma_both_less(b: real, d: real)
    ensures
        (1real - b) * (1real - d) == 1real - b - d + b * d,
{
    lemma_rest(1real - b, d);
    lemma_spread(d, 1real, b);
    lemma_spread(1real - b, d, 0real);
    lemma_spread(b, d, 0real);
    assert(d * 1real == d);
}

proof fn lemma_six(a: real, d: real, y: real, s: real, w: real, z: real)
    ensures
        ((a * d) * (y * s)) * (w * z) == ((a * w) * (d * z)) * (y * s),
{
    lemma_factors(a * d, y * s, w * z);
    lemma_four_factors(a, d, w, z);
}

proof fn lemma_signs(a: real, b: real)
    ensures
        (-a) * (-b) == a * b,
{
    lemma_spread(-a, b, 0real);
    lemma_spread(b, a, 0real);
}

proof fn lemma_four(u: real, x: real, v: real, t: real, y: real, s: real)
    ensures
        ((u * x) * (v * t)) * (y * s) == ((u * y) * (v * s)) * (x * t),
{
    lemma_factors(u, x, y);
    lemma_factors(v, t, s);
    lemma_four_factors(u * x, v * t, y, s);
    lemma_four_factors(u * y, v * s, x, t);
}

/// The wet parts of the four edges are not independent of each other.
proof fn lemma_cross(u: real, v: real, w: real, z: real)
    requires
        u <= 0real,
        v <= 0real,
        w > 0real,
        z > 0real,
    ensures
        ({
            let (a, b, c, d) = (ratio(u, w), ratio(u, z), ratio(v, w), ratio(v, z));
            (a * d) * ((1real - b) * (1real - c)) == (b * c) * ((1real - a) * (1real - d))
        }),
{
    let (a, b, c, d) = (ratio(u, w), ratio(u, z), ratio(v, w), ratio(v, z));
    let (x, y, s, t) = (1real - a, 1real - b, 1real - c, 1real - d);
    lemma_ratio(u, w);
    lemma_ratio(u, z);
    lemma_ratio(v, w);
    lemma_ratio(v, z);
    lemma_rest(u, a);
    lemma_rest(u, b);
    lemma_rest(v, c);
    lemma_rest(v, d);
    let (aw, dz, bz, cw) = (a * w, d * z, b * z, c * w);
    assert(aw == -(u * x) && dz == -(v * t) && bz == -(u * y) && cw == -(v * s));
    let k = w * z;
    let (l, r) = ((a * d) * (y * s), (b * c) * (x * t));
    lemma_six(a, d, y, s, w, z);
    lemma_six(b, c, x, t, z, w);
    assert(w * z == z * w) by (nonlinear_arith);
    lemma_signs(u * x, v * t);
    lemma_signs(u * y, v * s);
    lemma_four(u, x, v, t, y, s);
    lemma_positive(w, z);
    lemma_equal(l, r, k);
}

proof fn lemma_times_both_less(k: real, b: real, c: real)
    ensures
        k * ((1real - b) * (1real - c)) == k - k * b - k * c + k * (b * c),
{
    lemma_both_less(b, c);
    lemma_spread(k, 1real - b - c, b * c);
    lemma_spread(k, 1real - b, c);
    lemma_rest(k, b);
}

/// The order of the two wet corners, and that of the two dry ones, does not matter.
proof fn lemma_pair_even(u: real, v: real, w: real, z: real)
    requires
        u <= 0real,
        v <= 0real,
        w > 0real,
        z > 0real,
    ensures
        pair(u, v, w, z) == pair(v, u, w, z),
        pair(u, v, w, z) == pair(u, v, z, w),
{
    let (a, b, c, d) = (ratio(u, w), ratio(u, z), ratio(v, w), ratio(v, z));
    lemma_cross(u, v, w, z);
    lemma_mix(a, b, c, d);
    lemma_mix(c, d, a, b);
    lemma_mix(b, a, d, c);
    let (ad, bc) = (a * d, b * c);
    lemma_times_both_less(ad, b, c);
    lemma_times_both_less(bc, a, d);
    lemma_spread(ad, bc, 0real);
    lemma_spread(c, b, 0real);
    lemma_spread(a, b, 0real);
    lemma_spread(c, d, 0real);
    assert((c * b) * d == bc * d && (c * b) * a == bc * a);
    assert((b * c) * a == bc * a && (b * c) * d == bc * d);
}

/// What is dry of a tetrahedron is what is not wet.
proof fn lemma_pair_rest(u: real, v: real, w: real, z: real)
    requires
        u != w,
        u != z,
        v != w,
        v != z,
    ensures
        pair(w, z, u, v) == 1real - pair(u, v, w, z),
{
    let (a, b, c, d) = (ratio(u, w), ratio(u, z), ratio(v, w), ratio(v, z));
    lemma_ratio(u, w);
    lemma_ratio(u, z);
    lemma_ratio(v, w);
    lemma_ratio(v, z);
    let (cd, bd) = (c * d, (1real - b) * (1real - d));
    assert(1real - (1real - c) == c && 1real - (1real - d) == d && 1real - (1real - a) == a);
    assert(pair(w, z, u, v) == (1real - a) * (1real - c * d) + a * bd);
    lemma_rest(1real - a, cd);
    lemma_rest(a, bd);
}

proof fn lemma_scale(y: real, a: real, b: real, k: real)
    requires
        a - a * b == -(b * k),
    ensures
        y * a - a * (y * b) == -(k * (y * b)),
{
    lemma_spread(y, a, a * b);
    lemma_factors(y, a, b);
    lemma_spread(y, b * k, 0real);
    lemma_factors(y, b, k);
}

// ---- From a triangle to a tetrahedron ------------------------------------------------

/// A tetrahedron with one corner `a` on its side of the water.
proof fn lemma_lone_swap(a: real, b: real, c: real, o: real)
    requires
        a != b,
        a != c,
        a != o,
    ensures
        tip(a, b, c) == (a - o) * lone(a, b, c, o),
        tip(a, b, c) == (a - o) * lone(a, o, b, c),
{
    let (x, y, z) = (ratio(a, b), ratio(a, c), ratio(a, o));
    lemma_ratio(a, o);
    let (xy, d) = (x * y, a - o);
    lemma_factors(d, xy, z);
    lemma_factors(z, x, y);
    assert(a * xy == (z * d) * xy);
}

/// A tetrahedron with the corner `b` alone, of which two other corners stand for each other.
proof fn lemma_lone_exchange(b: real, a: real, c: real, o: real)
    requires
        b != a,
        b != c,
        b != o,
    ensures
        tip(b, a, c) - tip(b, o, c) == (a - o) * lone(b, a, c, o),
        tip(b, c, a) - tip(b, c, o) == (a - o) * lone(b, a, c, o),
{
    let (x, y, g) = (ratio(b, a), ratio(b, o), ratio(b, c));
    lemma_ratio(b, a);
    lemma_ratio(b, o);
    let k = x * y;
    let (f, h) = (b - a, b - o);
    lemma_factors(x, f, y);
    lemma_factors(y, h, x);
    assert(b * y == k * f && b * x == k * h);
    lemma_spread(k, b, o);
    lemma_spread(k, b, a);
    lemma_spread(k, a, o);
    let (bx, by, e) = (b * x, b * y, a - o);
    lemma_factors(b, x, g);
    lemma_factors(b, y, g);
    lemma_spread(g, bx, by);
    lemma_factors(k, e, g);
    lemma_factors(x, g, y);
}

proof fn lemma_five(k: real, x: real, y: real, z: real, v: real, w: real)
    ensures
        k * (x + y + z - v - w) == k * x + k * y + k * z - k * v - k * w,
{
    lemma_spread(k, x, y);
    lemma_spread(k, x + y, z);
    lemma_spread(k, x + y + z, v);
    lemma_spread(k, x + y + z - v, w);
}

/// A tetrahedron with `a` and `o` on the same side of the water, and `b` and `c` on the other.
proof fn lemma_pair_along(a: real, b: real, c: real, o: real)
    requires
        a != b,
        a != c,
        o != b,
        o != c,
    ensures
        tip(a, b, c) - tip(o, b, c) == (a - o) * pair(a, o, b, c),
{
    let (p, q, r, s) = (ratio(a, b), ratio(a, c), ratio(o, b), ratio(o, c));
    lemma_ratio(a, b);
    lemma_ratio(a, c);
    lemma_ratio(o, b);
    lemma_ratio(o, c);
    lemma_mix(p, q, r, s);
    let (x, y, z) = (p * q, p * s, r * s);
    let (v, w) = (y * q, y * r);
    lemma_scale(y, a, q, c);
    lemma_scale(z, a, p, b);
    lemma_scale(x, o, s, c);
    lemma_scale(y, o, r, b);
    lemma_factors(p, q, s);
    lemma_factors(r, s, p);
    lemma_spread(x + y + z - v - w, a, o);
    lemma_five(a, x, y, z, v, w);
    lemma_five(o, x, y, z, v, w);
    lemma_spread(y, a, 0real);
    lemma_spread(z, a, 0real);
    lemma_spread(x, o, 0real);
    lemma_spread(y, o, 0real);
}

/// A tetrahedron with `a` and `b` on the same side of the water, and `c` and `o` on the other.
proof fn lemma_pair_across(a: real, b: real, c: real, o: real)
    requires
        a != c,
        a != o,
        b != c,
        b != o,
    ensures
        a + b + c - tip(c, a, b) - tip(b, o, c) == (a - o) * pair(a, b, o, c),
        tip(b, o, c) == tip(b, c, o),
        tip(c, a, b) == tip(c, b, a),
{
    let (p, q, r, s) = (ratio(a, o), ratio(a, c), ratio(b, o), ratio(b, c));
    lemma_ratio(a, o);
    lemma_ratio(a, c);
    lemma_ratio(b, o);
    lemma_ratio(b, c);
    let (x, z) = (1real - (1real - q) * (1real - s), r * s);
    let (t, d) = (x - z, a - o);
    lemma_both_less(s, q);
    lemma_spread(1real - q, 1real - s, 0real);
    lemma_rest(z, p);
    lemma_spread(1real - p, z, 0real);
    lemma_spread(p, z, 0real);
    lemma_spread(p, x, z);
    lemma_spread(d, z, p * t);
    lemma_factors(d, p, t);
    lemma_spread(a, x, z);
    lemma_spread(z, a, o);
    lemma_spread(z, d, 0real);
    let (sq, sr) = (s * q, s * r);
    lemma_spread(s, r, 0real);
    lemma_scale(s, b, r, o);
    lemma_scale(s, a, q, c);
    lemma_spread(a, q, s);
    lemma_spread(a, q + s, sq);
    lemma_spread(a, s, 0real);
    lemma_rest(c, q);
    lemma_spread(c, 1real - q, s);
    lemma_spread(c, 1real - q - s, sq);
    lemma_spread(c, q, 0real);
    lemma_spread(c, s, 0real);
    lemma_spread(s, b, 0real);
    assert(ratio(c, a) * ratio(c, b) == 1real - q - s + sq);
    lemma_spread(ratio(c, b), ratio(c, a), 0real);
    lemma_spread(s, r, 0real);
}

/// What putting `o` in the place of `a` changes of a triangle, is what is under water of the
/// tetrahedron between the two.
pub(crate) proof fn lemma_swap(a: real, b: real, c: real, o: real)
    ensures
        sunk(a, b, c) - sunk(o, b, c) == (a - o) * share(a, b, c, o),
{
    reveal(share);
    let d = a - o;
    assert(d * 1real == d && d * 0real == 0real);
    match (wet(a), wet(b), wet(c), wet(o)) {
        (true, true, true, true) => {},
        (false, false, false, false) => {},
        (true, false, false, false) => lemma_lone_swap(a, b, c, o),
        (false, true, true, true) => {
            lemma_lone_swap(a, b, c, o);
            lemma_rest(d, lone(a, b, c, o));
        },
        (false, false, false, true) => {
            lemma_lone_swap(o, b, c, a);
            lemma_back(d, o - a, lone(o, a, b, c));
        },
        (true, true, true, false) => {
            lemma_lone_swap(o, b, c, a);
            lemma_back(d, o - a, lone(o, a, b, c));
            lemma_rest(d, lone(o, a, b, c));
        },
        (false, true, false, false) => lemma_lone_exchange(b, a, c, o),
        (true, false, true, true) => {
            lemma_lone_exchange(b, a, c, o);
            lemma_rest(d, lone(b, a, c, o));
        },
        (false, false, true, false) => lemma_lone_exchange(c, a, b, o),
        (true, true, false, true) => {
            lemma_lone_exchange(c, a, b, o);
            lemma_rest(d, lone(c, a, b, o));
        },
        (true, false, false, true) => lemma_pair_along(a, b, c, o),
        (false, true, true, false) => {
            lemma_pair_along(a, b, c, o);
            lemma_pair_rest(a, o, b, c);
            lemma_rest(d, pair(a, o, b, c));
        },
        (true, true, false, false) => {
            lemma_pair_across(a, b, c, o);
            lemma_pair_even(a, b, c, o);
        },
        (true, false, true, false) => {
            lemma_pair_across(a, c, b, o);
            lemma_pair_even(a, c, b, o);
        },
        (false, true, false, true) => {
            lemma_pair_across(o, b, c, a);
            lemma_pair_even(o, b, a, c);
            lemma_back(d, o - a, pair(o, b, a, c));
        },
        (false, false, true, true) => {
            lemma_pair_across(o, c, b, a);
            lemma_pair_even(o, c, a, b);
            lemma_back(d, o - a, pair(o, c, a, b));
        },
    }
}

proof fn lemma_rest(d: real, x: real)
    ensures
        d * (1real - x) == d - d * x,
{
    lemma_spread(d, 1real, x);
    assert(d * 1real == d);
}

proof fn lemma_back(d: real, e: real, x: real)
    requires
        e == -d,
    ensures
        e * x == -(d * x),
{
    lemma_spread(x, d, 0real);
}

// ---- The order of the corners --------------------------------------------------------

proof fn lemma_lone_even(x: real, y: real, z: real, t: real)
    ensures
        lone(x, y, z, t) == lone(x, z, y, t),
        lone(x, y, z, t) == lone(x, y, t, z),
        lone(x, y, z, t) == lone(x, t, z, y),
        lone(x, y, z, t) == lone(x, z, t, y),
        lone(x, y, z, t) == lone(x, t, y, z),
{
    let (a, b, c) = (ratio(x, y), ratio(x, z), ratio(x, t));
    lemma_factors(a, b, c);
}

/// The order of the corners of a tetrahedron does not matter.
pub(crate) proof fn lemma_share_even(a: real, b: real, c: real, d: real)
    ensures
        share(a, b, c, d) == share(b, a, c, d),
        share(a, b, c, d) == share(c, b, a, d),
        share(a, b, c, d) == share(d, b, c, a),
{
    reveal(share);
    lemma_lone_even(a, b, c, d);
    lemma_lone_even(b, a, c, d);
    lemma_lone_even(c, a, b, d);
    lemma_lone_even(d, a, b, c);
    match (wet(a), wet(b), wet(c), wet(d)) {
        (true, true, false, false) => {
            lemma_pair_even(a, b, c, d);
            lemma_pair_even(b, a, c, d);
        },
        (true, false, true, false) => {
            lemma_pair_even(a, c, b, d);
            lemma_pair_even(c, a, b, d);
        },
        (true, false, false, true) => {
            lemma_pair_even(a, d, b, c);
            lemma_pair_even(d, a, b, c);
        },
        (false, true, true, false) => {
            lemma_pair_even(b, c, a, d);
            lemma_pair_even(c, b, a, d);
        },
        (false, true, false, true) => {
            lemma_pair_even(b, d, a, c);
            lemma_pair_even(d, b, a, c);
        },
        (false, false, true, true) => {
            lemma_pair_even(c, d, a, b);
            lemma_pair_even(d, c, a, b);
        },
        _ => {},
    }
}

pub(crate) proof fn lemma_sunk_even(a: real, b: real, c: real)
    ensures
        sunk(a, b, c) == sunk(b, a, c),
        sunk(a, b, c) == sunk(c, b, a),
        sunk(a, b, c) == sunk(a, c, b),
{
    let (x, y, z) = (ratio(a, b), ratio(a, c), ratio(b, a));
    let (u, v, w) = (ratio(b, c), ratio(c, a), ratio(c, b));
    lemma_spread(x, y, 0real);
    lemma_spread(z, u, 0real);
    lemma_spread(v, w, 0real);
}

} // verus!
