//! Products of real numbers.

use vstd::prelude::*;

verus! {

pub(crate) proof fn lemma_nonneg(a: real, b: real)
    requires
        a >= 0real,
        b >= 0real,
    ensures
        a * b >= 0real,
{
    assert(a * b >= 0real) by (nonlinear_arith)
        requires
            a >= 0real,
            b >= 0real,
    ;
}

pub(crate) proof fn lemma_positive(a: real, b: real)
    requires
        a > 0real,
        b > 0real,
    ensures
        a * b > 0real,
{
    assert(a * b > 0real) by (nonlinear_arith)
        requires
            a > 0real,
            b > 0real,
    ;
}

/// A product is as much less as a factor is.
pub(crate) proof fn lemma_order(a: real, x: real, y: real)
    requires
        a >= 0real,
        x <= y,
    ensures
        a * x <= a * y,
        x * a <= y * a,
{
    lemma_nonneg(a, y - x);
    assert(a * (y - x) == a * y - a * x) by (nonlinear_arith);
    assert(a * x == x * a && a * y == y * a) by (nonlinear_arith);
}

pub(crate) proof fn lemma_at_least(a: real, b: real, k: real)
    requires
        a * k >= b * k,
        k > 0real,
    ensures
        a >= b,
{
    if a < b {
        lemma_positive(b - a, k);
        assert((b - a) * k == b * k - a * k) by (nonlinear_arith);
    }
}

pub(crate) proof fn lemma_equal(a: real, b: real, k: real)
    requires
        a * k == b * k,
        k != 0real,
    ensures
        a == b,
{
    if k > 0real {
        lemma_at_least(a, b, k);
        lemma_at_least(b, a, k);
    } else {
        assert(a * (-k) == -(a * k) && b * (-k) == -(b * k)) by (nonlinear_arith);
        lemma_at_least(a, b, -k);
        lemma_at_least(b, a, -k);
    }
}

pub(crate) proof fn lemma_times_bound(a: real, b: real, m: real, n: real)
    requires
        -m <= a <= m,
        -n <= b <= n,
    ensures
        -(m * n) <= a * b <= m * n,
{
    lemma_nonneg(m - a, n + b);
    lemma_nonneg(m + a, n - b);
    lemma_nonneg(m - a, n - b);
    lemma_nonneg(m + a, n + b);
    assert((m - a) * (n + b) == m * n + m * b - a * n - a * b) by (nonlinear_arith);
    assert((m + a) * (n - b) == m * n - m * b + a * n - a * b) by (nonlinear_arith);
    assert((m - a) * (n - b) == m * n - m * b - a * n + a * b) by (nonlinear_arith);
    assert((m + a) * (n + b) == m * n + m * b + a * n + a * b) by (nonlinear_arith);
}

pub(crate) proof fn lemma_product_rises(x: real, y: real, u: real, v: real)
    requires
        0real <= u <= x,
        0real <= v <= y,
    ensures
        0real <= u * v <= x * y,
{
    lemma_nonneg(u, v);
    lemma_order(v, u, x);
    lemma_order(x, v, y);
}

pub(crate) proof fn lemma_spread(k: real, x: real, y: real)
    ensures
        k * (x + y) == k * x + k * y,
        k * (x - y) == k * x - k * y,
        (x + y) * k == x * k + y * k,
        (x - y) * k == x * k - y * k,
        k * (-x) == -(k * x),
        (-x) * k == -(x * k),
        k * x == x * k,
{
    assert(k * (x + y) == k * x + k * y) by (nonlinear_arith);
    assert(k * (x - y) == k * x - k * y) by (nonlinear_arith);
    assert((x + y) * k == x * k + y * k) by (nonlinear_arith);
    assert((x - y) * k == x * k - y * k) by (nonlinear_arith);
    assert(k * (-x) == -(k * x)) by (nonlinear_arith);
    assert((-x) * k == -(x * k)) by (nonlinear_arith);
    assert(k * x == x * k) by (nonlinear_arith);
}

/// The order of three factors does not matter.
pub(crate) proof fn lemma_factors(a: real, b: real, c: real)
    ensures
        (a * b) * c == a * (b * c),
        (a * b) * c == (a * c) * b,
        (a * b) * c == (b * a) * c,
        (a * b) * c == (b * c) * a,
        (a * b) * c == (c * a) * b,
        (a * b) * c == (c * b) * a,
        a * (b * c) == b * (a * c),
        a * (b * c) == c * (a * b),
        a * (b * c) == a * (c * b),
        a * (b * c) == b * (c * a),
        a * (b * c) == c * (b * a),
{
    lemma_spread(a, b, 0real);
    lemma_spread(a, c, 0real);
    lemma_spread(b, c, 0real);
    assert((a * b) * c == a * (b * c)) by (nonlinear_arith);
    assert((a * c) * b == a * (c * b)) by (nonlinear_arith);
    assert((b * c) * a == b * (c * a)) by (nonlinear_arith);
    assert((b * a) * c == b * (a * c)) by (nonlinear_arith);
    assert((c * a) * b == c * (a * b)) by (nonlinear_arith);
    assert((c * b) * a == c * (b * a)) by (nonlinear_arith);
    lemma_spread(a * b, c, 0real);
    lemma_spread(a * c, b, 0real);
    lemma_spread(b * c, a, 0real);
}

/// Nor does that of four.
pub(crate) proof fn lemma_four_factors(a: real, b: real, c: real, d: real)
    ensures
        (a * b) * (c * d) == (a * c) * (b * d),
{
    lemma_factors(a, b, c * d);
    lemma_factors(b, c, d);
    lemma_factors(a, c, b * d);
}

} // verus!
