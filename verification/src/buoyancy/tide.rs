//! Less of a solid is under water where its corners are higher.

use super::reals::{lemma_at_least, lemma_factors, lemma_order, lemma_positive};
use super::reals::{lemma_product_rises, lemma_spread};
use super::share::{lemma_ratio, lemma_share_even, lone, mix, pair, ratio, share, wet};
use vstd::prelude::*;

verus! {

pub(crate) proof fn lemma_ratio_range(u: real, v: real)
    requires
        u <= 0real < v,
    ensures
        0real <= ratio(u, v) <= 1real,
{
    let (r, d) = (ratio(u, v), v - u);
    lemma_ratio(u, v);
    lemma_spread(r, u - v, 0real);
    assert(0real * d == 0real && 1real * d == d);
    lemma_at_least(r, 0real, d);
    lemma_at_least(1real, r, d);
}

/// Less of an edge is wet where its ends are higher.
proof fn lemma_ratio_falls(u: real, x: real, v: real, y: real)
    requires
        u <= x <= 0real < v <= y,
    ensures
        ratio(x, y) <= ratio(u, v),
{
    let (r, s) = (ratio(u, v), ratio(x, y));
    let (p, q) = (-u, -x);
    let (a, b) = (p + v, q + y);
    lemma_ratio(u, v);
    lemma_ratio(x, y);
    lemma_spread(r, u - v, 0real);
    lemma_spread(s, x - y, 0real);
    assert(a == v - u && b == y - x);
    assert(r * a == p && s * b == q);
    lemma_spread(p, q, y);
    lemma_spread(q, p, v);
    lemma_order(y, q, p);
    lemma_order(q, v, y);
    let k = a * b;
    lemma_positive(a, b);
    lemma_factors(r, a, b);
    lemma_factors(s, a, b);
    lemma_at_least(r, s, k);
}

/// More of every edge is more of the whole.
proof fn lemma_mix_rises(
    a: real,
    b: real,
    c: real,
    d: real,
    p: real,
    q: real,
    r: real,
    s: real,
)
    requires
        0real <= p <= a <= 1real,
        0real <= q <= b <= 1real,
        0real <= r <= c <= 1real,
        0real <= s <= d <= 1real,
    ensures
        mix(p, q, r, s) <= mix(a, b, c, d),
{
    let (x, u) = (1real - (1real - b) * (1real - d), 1real - (1real - q) * (1real - s));
    let (y, v) = (c * d, r * s);
    lemma_product_rises(1real - q, 1real - s, 1real - b, 1real - d);
    lemma_product_rises(c, d, r, s);
    lemma_product_rises(1real, 1real - d, 1real - b, 1real - d);
    lemma_product_rises(1real, d, c, d);
    lemma_order(p, u, x);
    lemma_order(1real - p, v, y);
    let e = x - y;
    lemma_spread(y, 1real, p);
    lemma_spread(y, 1real, a);
    lemma_spread(p, x, y);
    lemma_spread(a, x, y);
    assert(1real * y == y);
    lemma_order(e, p, a);
}

proof fn lemma_none_of_one(c: real, d: real)
    ensures
        mix(0real, 0real, c, d) == c * d,
{
    let (x, y) = (1real - (1real - 0real) * (1real - d), c * d);
    assert(0real * x == 0real);
    assert((1real - 0real) * y == y);
}

proof fn lemma_all_of_one(b: real, d: real)
    ensures
        mix(1real, b, 1real, d) == 1real - (1real - b) * (1real - d),
{
    let (x, y) = (1real - (1real - b) * (1real - d), 1real * d);
    assert(1real * x == x);
    assert((1real - 1real) * y == 0real);
}

proof fn lemma_lone_range(x: real, y: real, z: real)
    requires
        0real <= x <= 1real,
        0real <= y <= 1real,
        0real <= z <= 1real,
    ensures
        0real <= x * y * z <= 1real,
        x * y * z <= y * z,
        x * y * z <= x * y,
{
    lemma_product_rises(1real, 1real, x, y);
    lemma_product_rises(x * y, 1real, x * y, z);
    lemma_product_rises(1real, y, x, y);
    lemma_product_rises(y, z, x * y, z);
}

/// A corner that rises among three dry ones.
proof fn lemma_first_alone(a: real, e: real, b: real, c: real, d: real)
    requires
        a <= e <= 0real,
        b > 0real,
        c > 0real,
        d > 0real,
    ensures
        0real <= lone(e, b, c, d) <= lone(a, b, c, d),
{
    lemma_ratio_range(e, b);
    lemma_ratio_range(e, c);
    lemma_ratio_range(e, d);
    lemma_ratio_falls(a, e, b, b);
    lemma_ratio_falls(a, e, c, c);
    lemma_ratio_falls(a, e, d, d);
    lemma_product_rises(ratio(a, b), ratio(a, c), ratio(e, b), ratio(e, c));
    lemma_product_rises(
        ratio(a, b) * ratio(a, c),
        ratio(a, d),
        ratio(e, b) * ratio(e, c),
        ratio(e, d),
    );
}

/// A dry corner that rises among three wet ones.
proof fn lemma_last_alone(a: real, e: real, b: real, c: real, d: real)
    requires
        0real < a <= e,
        b <= 0real,
        c <= 0real,
        d <= 0real,
    ensures
        0real <= lone(a, b, c, d) <= lone(e, b, c, d) <= 1real,
{
    lemma_ratio(b, a);
    lemma_ratio(b, e);
    lemma_ratio(c, a);
    lemma_ratio(c, e);
    lemma_ratio(d, a);
    lemma_ratio(d, e);
    lemma_ratio_range(b, a);
    lemma_ratio_range(c, a);
    lemma_ratio_range(d, a);
    lemma_ratio_range(b, e);
    lemma_ratio_range(c, e);
    lemma_ratio_range(d, e);
    lemma_ratio_falls(b, b, a, e);
    lemma_ratio_falls(c, c, a, e);
    lemma_ratio_falls(d, d, a, e);
    lemma_product_rises(ratio(e, b), ratio(e, c), ratio(a, b), ratio(a, c));
    lemma_product_rises(
        ratio(e, b) * ratio(e, c),
        ratio(e, d),
        ratio(a, b) * ratio(a, c),
        ratio(a, d),
    );
    lemma_lone_range(ratio(e, b), ratio(e, c), ratio(e, d));
}

/// A corner that rises, where one other is wet.
proof fn lemma_beside_one(a: real, e: real, b: real, c: real, d: real)
    requires
        a <= e,
        b <= 0real,
        c > 0real,
        d > 0real,
    ensures
        wet(e) ==> pair(e, b, c, d) <= pair(a, b, c, d),
        wet(a) && !wet(e) ==> lone(b, e, c, d) <= pair(a, b, c, d),
        !wet(a) ==> lone(b, e, c, d) <= lone(b, a, c, d),
{
    let (r, s) = (ratio(b, c), ratio(b, d));
    lemma_ratio_range(b, c);
    lemma_ratio_range(b, d);
    if wet(a) {
        lemma_ratio_range(a, c);
        lemma_ratio_range(a, d);
    }
    if wet(e) {
        lemma_ratio_range(e, c);
        lemma_ratio_range(e, d);
        lemma_ratio_falls(a, e, c, c);
        lemma_ratio_falls(a, e, d, d);
        lemma_mix_rises(ratio(a, c), ratio(a, d), r, s, ratio(e, c), ratio(e, d), r, s);
    } else {
        let z = ratio(b, e);
        lemma_ratio_range(b, e);
        if wet(a) {
            lemma_mix_rises(ratio(a, c), ratio(a, d), r, s, 0real, 0real, r, s);
            lemma_none_of_one(r, s);
            lemma_lone_range(z, r, s);
        } else {
            lemma_ratio_falls(b, b, a, e);
            lemma_product_rises(ratio(b, a), r, z, r);
            lemma_product_rises(ratio(b, a) * r, s, z * r, s);
        }
    }
}

/// A corner that rises, where two others are wet.
proof fn lemma_beside_two(a: real, e: real, b: real, c: real, d: real)
    requires
        a <= e,
        b <= 0real,
        c <= 0real,
        d > 0real,
    ensures
        wet(e) ==> lone(d, a, b, c) <= lone(d, e, b, c),
        wet(a) && !wet(e) ==> pair(b, c, e, d) <= 1real - lone(d, a, b, c),
        !wet(a) ==> pair(b, c, e, d) <= pair(b, c, a, d),
{
    let (q, s) = (ratio(b, d), ratio(c, d));
    lemma_ratio_range(b, d);
    lemma_ratio_range(c, d);
    lemma_ratio(b, d);
    lemma_ratio(c, d);
    let (x, y) = (ratio(d, b), ratio(d, c));
    if wet(a) {
        lemma_ratio_range(a, d);
        lemma_ratio(a, d);
    }
    if wet(e) {
        lemma_ratio_range(e, d);
        lemma_ratio(e, d);
        lemma_ratio_falls(a, e, d, d);
        lemma_product_rises(ratio(d, e), x, ratio(d, a), x);
        lemma_product_rises(ratio(d, e) * x, y, ratio(d, a) * x, y);
    } else {
        lemma_ratio_range(b, e);
        lemma_ratio_range(c, e);
        if wet(a) {
            lemma_mix_rises(1real, q, 1real, s, ratio(b, e), q, ratio(c, e), s);
            lemma_all_of_one(q, s);
            lemma_lone_range(ratio(d, a), x, y);
        } else {
            lemma_ratio_range(b, a);
            lemma_ratio_range(c, a);
            lemma_ratio_falls(b, b, a, e);
            lemma_ratio_falls(c, c, a, e);
            lemma_mix_rises(ratio(b, a), q, ratio(c, a), s, ratio(b, e), q, ratio(c, e), s);
        }
    }
}

/// Less of a tetrahedron is under water where a corner is higher.
proof fn lemma_higher(a: real, e: real, b: real, c: real, d: real)
    requires
        a <= e,
    ensures
        share(e, b, c, d) <= share(a, b, c, d),
{
    reveal(share);
    match (wet(b), wet(c), wet(d)) {
        (false, false, false) => {
            if wet(e) {
                lemma_first_alone(a, e, b, c, d);
            } else if wet(a) {
                lemma_first_alone(a, a, b, c, d);
            }
        },
        (true, true, true) => {
            if !wet(a) {
                lemma_last_alone(a, e, b, c, d);
            } else if !wet(e) {
                lemma_last_alone(e, e, b, c, d);
            }
        },
        (true, false, false) => lemma_beside_one(a, e, b, c, d),
        (false, true, false) => lemma_beside_one(a, e, c, b, d),
        (false, false, true) => lemma_beside_one(a, e, d, b, c),
        (true, true, false) => lemma_beside_two(a, e, b, c, d),
        (true, false, true) => lemma_beside_two(a, e, b, d, c),
        (false, true, true) => lemma_beside_two(a, e, c, d, b),
    }
}

/// No less of a tetrahedron is under water that has risen by `k`.
pub(crate) proof fn lemma_share_rises(a: real, b: real, c: real, d: real, k: real)
    requires
        k >= 0real,
    ensures
        share(a, b, c, d) <= share(a - k, b - k, c - k, d - k),
{
    let (p, q, r, s) = (a - k, b - k, c - k, d - k);
    lemma_higher(p, a, b, c, d);
    lemma_share_even(p, b, c, d);
    lemma_higher(q, b, p, c, d);
    lemma_share_even(p, q, c, d);
    lemma_higher(r, c, q, p, d);
    lemma_share_even(p, q, r, d);
    lemma_higher(s, d, q, r, p);
    lemma_share_even(p, q, r, s);
}

/// What is under water of a tetrahedron is no less than nothing and no more than the whole.
pub(crate) proof fn lemma_share_range(a: real, b: real, c: real, d: real)
    ensures
        0real <= share(a, b, c, d) <= 1real,
{
    reveal(share);
    let p = if a >= b { a } else { b };
    let q = if c >= d { c } else { d };
    let top = if p >= q { p } else { q };
    let r = if a <= b { a } else { b };
    let s = if c <= d { c } else { d };
    let low = if r <= s { r } else { s };
    if top >= 0real {
        assert(share(a - top, b - top, c - top, d - top) == 1real);
        lemma_share_rises(a, b, c, d, top);
    } else {
        assert(share(a, b, c, d) == 1real);
    }
    if low <= 0real {
        let k = 1real - low;
        assert(share(a + k, b + k, c + k, d + k) == 0real);
        lemma_share_rises(a + k, b + k, c + k, d + k, k);
    }
}

} // verus!
