//! Fixed-point geometry. Lengths are whole micrometres, so sums and comparisons are
//! exact and do not depend on where in the world they are made.

use vstd::prelude::*;

verus! {

/// How far from the origin of its frame a local coordinate may lie (2^60 um, about eight
/// times the distance from the Earth to the Sun).
pub const LOCAL_LIMIT: i64 = 0x1000_0000_0000_0000;

/// How far from the origin a coordinate of the planet's frame may lie. Half of
/// [`LOCAL_LIMIT`], so that the difference of two of them is a local coordinate.
pub const WORLD_LIMIT: i64 = 0x0800_0000_0000_0000;

/// A position, in micrometres along each axis.
#[derive(Clone, Copy, Debug, PartialEq, Eq, Structural)]
pub struct Point {
    pub x: i64,
    pub y: i64,
    pub z: i64,
}

impl Point {
    /// Whether every coordinate is at most `limit` away from zero.
    pub open spec fn within(self, limit: int) -> bool {
        &&& -limit <= self.x <= limit
        &&& -limit <= self.y <= limit
        &&& -limit <= self.z <= limit
    }

    /// A position of the room's frame.
    pub open spec fn is_local(self) -> bool {
        self.within(LOCAL_LIMIT as int)
    }

    /// A position of the planet's frame.
    pub open spec fn is_world(self) -> bool {
        self.within(WORLD_LIMIT as int)
    }

    /// The square of the distance to `other`, in square micrometres.
    pub open spec fn dist2(self, other: Point) -> nat {
        (square(self.x - other.x) + square(self.y - other.y) + square(self.z - other.z)) as nat
    }

    /// The distance to `other`, rounded down to a whole micrometre.
    pub open spec fn dist(self, other: Point) -> nat {
        floor_sqrt(self.dist2(other))
    }

    /// This position as seen from a frame whose origin stands at `origin`.
    pub open spec fn seen_from(self, origin: Point) -> Point {
        Point {
            x: (self.x - origin.x) as i64,
            y: (self.y - origin.y) as i64,
            z: (self.z - origin.z) as i64,
        }
    }

    /// The position `num / den` of the way from `self` to `other`, each coordinate
    /// rounded towards `self`.
    pub open spec fn toward(self, other: Point, num: int, den: int) -> Point {
        Point {
            x: part_way(self.x as int, other.x as int, num, den) as i64,
            y: part_way(self.y as int, other.y as int, num, den) as i64,
            z: part_way(self.z as int, other.z as int, num, den) as i64,
        }
    }

    /// Squared distance to `other`.
    pub fn distance_squared(&self, other: &Point) -> (d: u128)
        requires
            self.is_local(),
            other.is_local(),
        ensures
            d == self.dist2(*other),
            d <= 0x0c00_0000_0000_0000_0000_0000_0000_0000,
    {
        let x: u128 = axis_squared(self.x, other.x);
        let y: u128 = axis_squared(self.y, other.y);
        let z: u128 = axis_squared(self.z, other.z);
        x + y + z
    }

    /// Distance to `other`, rounded down.
    pub fn distance(&self, other: &Point) -> (d: u64)
        requires
            self.is_local(),
            other.is_local(),
        ensures
            d == self.dist(*other),
            d < 0x4000_0000_0000_0000,
    {
        let square: u128 = self.distance_squared(other);
        integer_sqrt(square)
    }

    /// This position seen from a frame at `origin`.
    pub fn relative_to(&self, origin: &Point) -> (p: Point)
        requires
            self.is_world(),
            origin.is_world(),
        ensures
            p == self.seen_from(*origin),
            p.is_local(),
    {
        Point { x: self.x - origin.x, y: self.y - origin.y, z: self.z - origin.z }
    }

    /// The position `num / den` of the way to `other`.
    pub fn lerp(&self, other: &Point, num: u64, den: u64) -> (p: Point)
        requires
            self.is_local(),
            other.is_local(),
            num <= den,
            0 < den,
        ensures
            p == self.toward(*other, num as int, den as int),
            p.is_local(),
    {
        Point {
            x: axis_part_way(self.x, other.x, num, den),
            y: axis_part_way(self.y, other.y, num, den),
            z: axis_part_way(self.z, other.z, num, den),
        }
    }
}

/// `v` times itself.
pub open spec fn square(v: int) -> int {
    v * v
}

/// `num / den` of the way from `from` to `to`, rounded towards `from`.
pub open spec fn part_way(from: int, to: int, num: int, den: int) -> int {
    if from <= to {
        from + ((to - from) * num) / den
    } else {
        from - ((from - to) * num) / den
    }
}

/// The square root of `n`, rounded down.
pub open spec fn floor_sqrt(n: nat) -> nat {
    choose|r: nat| is_floor_sqrt(r, n)
}

/// Whether `r` is the largest number whose square does not exceed `n`.
pub open spec fn is_floor_sqrt(r: nat, n: nat) -> bool {
    r * r <= n < (r + 1) * (r + 1)
}

/// Only one number is the rounded-down square root of `n`.
pub proof fn lemma_floor_sqrt_unique(r: nat, n: nat)
    requires
        is_floor_sqrt(r, n),
    ensures
        floor_sqrt(n) == r,
{
    let c = floor_sqrt(n);
    assert(is_floor_sqrt(c, n));
    if c < r {
        assert((c + 1) * (c + 1) <= r * r) by (nonlinear_arith)
            requires
                c + 1 <= r,
        ;
    }
    if r < c {
        assert((r + 1) * (r + 1) <= c * c) by (nonlinear_arith)
            requires
                r + 1 <= c,
        ;
    }
}

/// A distance above a threshold on the squares is at least the threshold once rounded.
pub proof fn lemma_dist_at_least(p: Point, q: Point, d: nat)
    requires
        p.is_local(),
        q.is_local(),
        p.dist2(q) >= d * d,
    ensures
        p.dist(q) >= d,
{
    lemma_dist_defined(p, q);
    let r = p.dist(q);
    if r < d {
        assert((r + 1) * (r + 1) <= d * d) by (nonlinear_arith)
            requires
                r + 1 <= d,
        ;
    }
}

/// The rounded distance is the rounded root of the squared distance.
pub proof fn lemma_dist_defined(p: Point, q: Point)
    ensures
        is_floor_sqrt(p.dist(q), p.dist2(q)),
{
    lemma_floor_sqrt_exists(p.dist2(q));
}

/// Every number has a rounded-down square root.
pub proof fn lemma_floor_sqrt_exists(n: nat)
    ensures
        is_floor_sqrt(floor_sqrt(n), n),
    decreases n,
{
    if n == 0 {
        assert(0nat * 0nat <= 0 < (0nat + 1) * (0nat + 1)) by (nonlinear_arith);
        assert(is_floor_sqrt(0, 0));
    } else {
        lemma_floor_sqrt_exists((n - 1) as nat);
        let r = floor_sqrt((n - 1) as nat);
        if (r + 1) * (r + 1) <= n {
            assert((r + 2) * (r + 2) == (r + 1) * (r + 1) + 2 * r + 3) by (nonlinear_arith);
            assert(is_floor_sqrt(r + 1, n)) by {
                assert((r + 1 + 1) * (r + 1 + 1) == (r + 2) * (r + 2));
            }
        } else {
            assert(is_floor_sqrt(r, n));
        }
    }
}

/// The square of a distance is the sum of the squares along the axes; it is the same both ways,
/// and nothing only between a place and itself.
pub proof fn law_distance_is_by_axes(p: Point, q: Point)
    ensures
        p.dist2(q) == (p.x - q.x) * (p.x - q.x) + (p.y - q.y) * (p.y - q.y) + (p.z - q.z) * (p.z
            - q.z),
        p.dist2(q) == q.dist2(p),
        p.dist2(q) == 0 <==> p == q,
        p.dist(q) * p.dist(q) <= p.dist2(q) < (p.dist(q) + 1) * (p.dist(q) + 1),
{
    let (x, y, z) = (p.x - q.x, p.y - q.y, p.z - q.z);
    lemma_square_sign(x);
    lemma_square_sign(y);
    lemma_square_sign(z);
    lemma_dist_defined(p, q);
}

proof fn lemma_square_sign(v: int)
    ensures
        v * v >= 0,
        v * v == 0 <==> v == 0,
        (-v) * (-v) == v * v,
{
    assert(v * v >= 0) by (nonlinear_arith);
    assert(v * v == 0 <==> v == 0) by (nonlinear_arith);
    assert((-v) * (-v) == v * v) by (nonlinear_arith);
}

/// A place seen from a frame's origin, moved back by that origin, is the place; the origin sees
/// itself at zero.
pub proof fn law_frames_are_undone(p: Point, origin: Point)
    requires
        p.is_world(),
        origin.is_world(),
    ensures
        ({
            let s = p.seen_from(origin);
            s.x + origin.x == p.x && s.y + origin.y == p.y && s.z + origin.z == p.z
        }),
        origin.seen_from(origin) == (Point { x: 0, y: 0, z: 0 }),
{
}

/// Part of the way lies between the ends, along each axis, within a micrometre of its share:
/// none of the way is the start and all of it the end.
pub proof fn law_part_of_the_way_lies_between(from: int, to: int, num: int, den: int)
    requires
        0 <= num <= den,
        0 < den,
    ensures
        ({
            let c = part_way(from, to, num, den);
            &&& from <= to ==> from <= c <= to && 0 <= (to - from) * num - (c - from) * den < den
            &&& to <= from ==> to <= c <= from && 0 <= (from - to) * num - (from - c) * den < den
            &&& num == 0 ==> c == from
            &&& num == den ==> c == to
        }),
{
    let d = if from <= to { to - from } else { from - to };
    let q = (d * num) / den;
    vstd::arithmetic::div_mod::lemma_fundamental_div_mod(d * num, den);
    assert(den * q == q * den) by (nonlinear_arith);
    assert(0 <= q <= d) by (nonlinear_arith)
        requires
            q == (d * num) / den,
            0 <= d,
            0 <= num <= den,
            0 < den,
    ;
    if num == 0 {
        assert(d * 0 == 0);
        assert(q == 0) by (nonlinear_arith)
            requires
                q == 0int / den,
                0 < den,
        ;
    }
    if num == den {
        assert(q == d) by (nonlinear_arith)
            requires
                q == (d * den) / den,
                0 < den,
        ;
    }
}

/// Local positions lie less than 2^62 um apart.
pub proof fn lemma_dist_small(p: Point, q: Point)
    requires
        p.is_local(),
        q.is_local(),
    ensures
        p.dist(q) < 0x4000_0000_0000_0000,
{
    lemma_dist_defined(p, q);
    let d = p.dist(q);
    let (x, y, z) = (p.x - q.x, p.y - q.y, p.z - q.z);
    assert(0 <= square(x) <= 0x2000_0000_0000_0000 * 0x2000_0000_0000_0000) by (nonlinear_arith)
        requires
            -0x2000_0000_0000_0000 <= x <= 0x2000_0000_0000_0000,
    ;
    assert(0 <= square(y) <= 0x2000_0000_0000_0000 * 0x2000_0000_0000_0000) by (nonlinear_arith)
        requires
            -0x2000_0000_0000_0000 <= y <= 0x2000_0000_0000_0000,
    ;
    assert(0 <= square(z) <= 0x2000_0000_0000_0000 * 0x2000_0000_0000_0000) by (nonlinear_arith)
        requires
            -0x2000_0000_0000_0000 <= z <= 0x2000_0000_0000_0000,
    ;
    if d >= 0x4000_0000_0000_0000 {
        assert(d * d >= 0x4000_0000_0000_0000 * 0x4000_0000_0000_0000) by (nonlinear_arith)
            requires
                d >= 0x4000_0000_0000_0000,
        ;
    }
}

/// The square of the difference of two coordinates.
fn axis_squared(a: i64, b: i64) -> (d: u128)
    requires
        -LOCAL_LIMIT <= a <= LOCAL_LIMIT,
        -LOCAL_LIMIT <= b <= LOCAL_LIMIT,
    ensures
        d == square(a - b),
        d <= 0x0400_0000_0000_0000_0000_0000_0000_0000,
{
    let gap: u64 = if a >= b { (a - b) as u64 } else { (b - a) as u64 };
    proof {
        assert(gap * gap <= 0x2000_0000_0000_0000 * 0x2000_0000_0000_0000) by (nonlinear_arith)
            requires
                0 <= gap <= 0x2000_0000_0000_0000,
        ;
        assert(gap * gap == square(a - b)) by {
            if a < b {
                assert((b - a) * (b - a) == (a - b) * (a - b)) by (nonlinear_arith);
            }
        }
    }
    (gap as u128) * (gap as u128)
}

/// One coordinate of [`Point::lerp`].
fn axis_part_way(from: i64, to: i64, num: u64, den: u64) -> (c: i64)
    requires
        -LOCAL_LIMIT <= from <= LOCAL_LIMIT,
        -LOCAL_LIMIT <= to <= LOCAL_LIMIT,
        num <= den,
        0 < den,
    ensures
        c == part_way(from as int, to as int, num as int, den as int),
        -LOCAL_LIMIT <= c <= LOCAL_LIMIT,
        from <= to ==> from <= c <= to,
        to <= from ==> to <= c <= from,
{
    let gap: u64 = if from <= to { (to - from) as u64 } else { (from - to) as u64 };
    proof {
        assert(0 <= gap * num <= gap * den) by (nonlinear_arith)
            requires
                0 <= num <= den,
                0 <= gap,
        ;
        assert(gap * den <= 0x2000_0000_0000_0000 * 0xffff_ffff_ffff_ffff) by (nonlinear_arith)
            requires
                0 <= gap <= 0x2000_0000_0000_0000,
                0 <= den <= 0xffff_ffff_ffff_ffff,
        ;
        assert(0 <= (gap * num) / (den as int) <= gap) by (nonlinear_arith)
            requires
                0 <= gap * num <= gap * den,
                0 < den,
        ;
    }
    let product: u128 = (gap as u128) * (num as u128);
    let moved: u64 = (product / (den as u128)) as u64;
    if from <= to {
        (from as i128 + moved as i128) as i64
    } else {
        (from as i128 - moved as i128) as i64
    }
}

/// The square root of `n`, rounded down.
pub fn integer_sqrt(n: u128) -> (r: u64)
    requires
        n < 0x1000_0000_0000_0000_0000_0000_0000_0000,
    ensures
        r == floor_sqrt(n as nat),
        r < 0x4000_0000_0000_0000,
{
    let mut low: u64 = 0;
    let mut high: u64 = 0x4000_0000_0000_0000;
    assert(0x4000_0000_0000_0000u64 * 0x4000_0000_0000_0000u64
        == 0x1000_0000_0000_0000_0000_0000_0000_0000) by (nonlinear_arith);
    while high - low > 1
        invariant
            low < high <= 0x4000_0000_0000_0000,
            low * low <= n < high * high,
        decreases high - low,
    {
        let mid: u64 = low + (high - low) / 2;
        assert(mid * mid <= 0x4000_0000_0000_0000 * 0x4000_0000_0000_0000) by (nonlinear_arith)
            requires
                0 <= mid <= 0x4000_0000_0000_0000,
        ;
        let square: u128 = (mid as u128) * (mid as u128);
        if square <= n {
            low = mid;
        } else {
            high = mid;
        }
    }
    proof {
        assert(is_floor_sqrt(low as nat, n as nat));
        lemma_floor_sqrt_unique(low as nat, n as nat);
    }
    low
}

// ---- Vectors -------------------------------------------------------------------------

/// Length of a unit vector: directions are in millionths.
pub const UNIT: u64 = 1_000_000;

/// A direction longer than this along an axis cannot be made a unit vector.
pub const DIRECTION_LIMIT: i64 = 0x4000_0000;

/// The square root of `n`, rounded up.
pub open spec fn ceil_sqrt(n: int) -> int {
    if n <= 0 {
        0
    } else {
        floor_sqrt((n - 1) as nat) as int + 1
    }
}

/// `v * num / den`, rounded towards zero.
pub open spec fn scaled(v: int, num: int, den: int) -> int {
    if v >= 0 {
        (v * num) / den
    } else {
        -((-v * num) / den)
    }
}

impl Point {
    /// The square of the vector's length.
    pub open spec fn len2(self) -> int {
        square(self.x as int) + square(self.y as int) + square(self.z as int)
    }

    /// The vector itself if it is no longer than `max`; otherwise the vector of that
    /// length in the same direction, rounded towards zero.
    pub open spec fn clamped(self, max: int) -> Point {
        if self.len2() <= max * max {
            self
        } else {
            self.times(max, ceil_sqrt(self.len2()))
        }
    }

    /// The vector with each coordinate scaled by `num / den`.
    pub open spec fn times(self, num: int, den: int) -> Point {
        Point {
            x: scaled(self.x as int, num, den) as i64,
            y: scaled(self.y as int, num, den) as i64,
            z: scaled(self.z as int, num, den) as i64,
        }
    }

    /// The unit vector in the same direction; nothing for nothing.
    pub open spec fn unit(self) -> Point {
        if self.len2() == 0 {
            self
        } else {
            self.times(
                UNIT * UNIT,
                floor_sqrt((self.len2() * (UNIT * UNIT)) as nat) as int,
            )
        }
    }

    /// No vector at all.
    pub fn zero() -> (p: Point)
        ensures
            p == (Point { x: 0, y: 0, z: 0 }),
    {
        Point { x: 0, y: 0, z: 0 }
    }

    /// The square of the vector's length.
    pub fn length_squared(&self) -> (d: u128)
        requires
            self.is_local(),
        ensures
            d == self.len2(),
            d <= 0x0c00_0000_0000_0000_0000_0000_0000_0000,
    {
        axis_squared(self.x, 0) + axis_squared(self.y, 0) + axis_squared(self.z, 0)
    }

    /// The vector, shortened to `max` if it is longer.
    pub fn clamp_length(&self, max: u64) -> (p: Point)
        requires
            self.is_local(),
            max <= LOCAL_LIMIT,
        ensures
            p == self.clamped(max as int),
            p.is_local(),
    {
        let square: u128 = self.length_squared();
        proof {
            assert(max * max <= 0x1000_0000_0000_0000 * 0x1000_0000_0000_0000) by (nonlinear_arith)
                requires
                    0 <= max <= 0x1000_0000_0000_0000,
            ;
            assert(max * max >= 0) by (nonlinear_arith)
                requires
                    max >= 0,
            ;
        }
        if square <= (max as u128) * (max as u128) {
            return *self;
        }
        let root: u64 = integer_sqrt(square - 1);
        let d: u64 = root + 1;
        proof {
            lemma_floor_sqrt_exists((square - 1) as nat);
            if d < max {
                assert((root + 1) * (root + 1) <= max * max) by (nonlinear_arith)
                    requires
                        0 <= root + 1 <= max,
                ;
            }
        }
        Point {
            x: scale_axis(self.x, max, d),
            y: scale_axis(self.y, max, d),
            z: scale_axis(self.z, max, d),
        }
    }

    /// The unit vector in the same direction; nothing for nothing.
    pub fn normalize_or_zero(&self) -> (p: Point)
        requires
            self.within(DIRECTION_LIMIT as int),
        ensures
            p == self.unit(),
            p.within(2_000_000),
    {
        let square: u128 = self.length_squared();
        if square == 0 {
            proof {
                lemma_no_length(*self);
            }
            return *self;
        }
        proof {
            lemma_axis_within_length(*self);
        }
        assert(UNIT * UNIT == 1_000_000_000_000) by (nonlinear_arith);
        let root: u64 = integer_sqrt(square * 1_000_000_000_000);
        proof {
            lemma_floor_sqrt_exists((square * 1_000_000_000_000) as nat);
            lemma_root_dominates(self.x as int, square as int, root as int);
            lemma_root_dominates(self.y as int, square as int, root as int);
            lemma_root_dominates(self.z as int, square as int, root as int);
        }
        Point {
            x: unit_axis(self.x, root),
            y: unit_axis(self.y, root),
            z: unit_axis(self.z, root),
        }
    }
}

/// How long a vector may be along an axis that joins two places (2^61 um and an eighth of
/// that).
pub const SPAN_LIMIT: i64 = 0x2400_0000_0000_0000;

/// The square of one coordinate of a long vector.
fn span_squared(v: i64) -> (d: u128)
    requires
        -SPAN_LIMIT <= v <= SPAN_LIMIT,
    ensures
        d == square(v as int),
        d <= 0x0510_0000_0000_0000_0000_0000_0000_0000,
{
    let magnitude: u64 = if v >= 0 { v as u64 } else { (-v) as u64 };
    proof {
        assert(magnitude * magnitude <= 0x2400_0000_0000_0000 * 0x2400_0000_0000_0000)
            by (nonlinear_arith)
            requires
                0 <= magnitude <= 0x2400_0000_0000_0000,
        ;
        assert(magnitude * magnitude == square(v as int)) by (nonlinear_arith)
            requires
                magnitude == v || magnitude == -v,
        ;
    }
    (magnitude as u128) * (magnitude as u128)
}

/// A number is no longer than the root of a sum of squares that has its own among them.
proof fn lemma_within_root(v: int, n: nat, root: nat)
    requires
        square(v) <= n,
        n < (root + 1) * (root + 1),
    ensures
        -root <= v <= root,
{
    if v > root {
        assert(v * v >= (root + 1) * (root + 1)) by (nonlinear_arith)
            requires
                v >= root + 1,
                root >= 0,
        ;
    }
    if v < -root {
        assert(v * v >= (root + 1) * (root + 1)) by (nonlinear_arith)
            requires
                -v >= root + 1,
                root >= 0,
        ;
    }
}

/// One coordinate of a long vector, made that of a unit vector.
fn shortened(v: i64, length: u64) -> (r: i64)
    requires
        -SPAN_LIMIT <= v <= SPAN_LIMIT,
        0 < length < 0x4000_0000_0000_0000,
        -length <= v <= length,
    ensures
        r == scaled(v as int, UNIT as int, length as int),
        -1_000_000 <= r <= 1_000_000,
{
    let magnitude: u64 = if v >= 0 { v as u64 } else { (-v) as u64 };
    assert(0 <= (magnitude * 1_000_000) / (length as int) <= 1_000_000) by (nonlinear_arith)
        requires
            0 <= magnitude <= length,
            0 < length,
    ;
    let q: i64 = (magnitude as u128 * 1_000_000 / length as u128) as i64;
    if v >= 0 {
        q
    } else {
        -q
    }
}

impl Point {
    /// The unit vector in the same direction, for a vector of any length; nothing for
    /// nothing.
    pub open spec fn direction(self) -> Point {
        if self.within(DIRECTION_LIMIT as int) {
            self.unit()
        } else {
            self.times(UNIT as int, floor_sqrt(self.len2() as nat) as int)
        }
    }

    /// The square of the length of a vector that joins two places.
    pub fn span_squared(&self) -> (d: u128)
        requires
            self.within(SPAN_LIMIT as int),
        ensures
            d == self.len2(),
            d <= 0x0f30_0000_0000_0000_0000_0000_0000_0000,
    {
        span_squared(self.x) + span_squared(self.y) + span_squared(self.z)
    }

    /// The unit vector in the same direction; nothing for nothing.
    pub fn direction_or_zero(&self) -> (p: Point)
        requires
            self.within(SPAN_LIMIT as int),
        ensures
            p == self.direction(),
            p.within(2_000_000),
    {
        let limit: i64 = DIRECTION_LIMIT;
        if -limit <= self.x && self.x <= limit && -limit <= self.y && self.y <= limit && -limit
            <= self.z && self.z <= limit {
            return self.normalize_or_zero();
        }
        let square: u128 = self.span_squared();
        let length: u64 = integer_sqrt(square);
        proof {
            lemma_floor_sqrt_exists(square as nat);
            let (x, y, z) = (self.x as int, self.y as int, self.z as int);
            assert(x * x >= 0 && y * y >= 0 && z * z >= 0) by (nonlinear_arith);
            lemma_within_root(x, square as nat, length as nat);
            lemma_within_root(y, square as nat, length as nat);
            lemma_within_root(z, square as nat, length as nat);
        }
        Point {
            x: shortened(self.x, length),
            y: shortened(self.y, length),
            z: shortened(self.z, length),
        }
    }
}

/// A vector without length has no coordinates.
proof fn lemma_no_length(p: Point)
    requires
        p.len2() == 0,
    ensures
        p == (Point { x: 0, y: 0, z: 0 }),
{
    assert(p.x * p.x >= 0) by (nonlinear_arith);
    assert(p.y * p.y >= 0) by (nonlinear_arith);
    assert(p.z * p.z >= 0) by (nonlinear_arith);
    assert(p.x == 0) by (nonlinear_arith)
        requires
            p.x * p.x == 0,
    ;
    assert(p.y == 0) by (nonlinear_arith)
        requires
            p.y * p.y == 0,
    ;
    assert(p.z == 0) by (nonlinear_arith)
        requires
            p.z * p.z == 0,
    ;
}

/// No coordinate is longer than the vector, and a short vector has a short square.
proof fn lemma_axis_within_length(p: Point)
    requires
        p.within(DIRECTION_LIMIT as int),
    ensures
        square(p.x as int) <= p.len2(),
        square(p.y as int) <= p.len2(),
        square(p.z as int) <= p.len2(),
        p.len2() <= 0x3000_0000_0000_0000,
{
    assert(0 <= square(p.x as int) <= 0x1000_0000_0000_0000) by (nonlinear_arith)
        requires
            -0x4000_0000 <= p.x <= 0x4000_0000,
    ;
    assert(0 <= square(p.y as int) <= 0x1000_0000_0000_0000) by (nonlinear_arith)
        requires
            -0x4000_0000 <= p.y <= 0x4000_0000,
    ;
    assert(0 <= square(p.z as int) <= 0x1000_0000_0000_0000) by (nonlinear_arith)
        requires
            -0x4000_0000 <= p.z <= 0x4000_0000,
    ;
}

/// A root of `n * 10^12` is within one of a million times every `v` with `v^2 <= n`.
proof fn lemma_root_dominates(v: int, n: int, root: int)
    requires
        square(v) <= n,
        1 <= n,
        root >= 0,
        n * 1_000_000_000_000 < (root + 1) * (root + 1),
    ensures
        root >= 999_999,
        -(root + 1) <= v * 1_000_000 <= root + 1,
{
    let a = if v >= 0 { v } else { -v };
    assert(a * a == square(v)) by (nonlinear_arith)
        requires
            a == v || a == -v,
    ;
    assert((a * 1_000_000) * (a * 1_000_000) <= n * 1_000_000_000_000) by (nonlinear_arith)
        requires
            a * a <= n,
    {
        assert((a * 1_000_000) * (a * 1_000_000) == (a * a) * 1_000_000_000_000);
    }
    assert(a * 1_000_000 < root + 1) by (nonlinear_arith)
        requires
            (a * 1_000_000) * (a * 1_000_000) < (root + 1) * (root + 1),
            root >= 0,
            a >= 0,
    ;
    assert(root + 1 >= 1_000_000) by (nonlinear_arith)
        requires
            1_000_000_000_000 <= (root + 1) * (root + 1),
            root >= 0,
    ;
}

/// One coordinate of [`Point::normalize_or_zero`].
fn unit_axis(v: i64, root: u64) -> (r: i64)
    requires
        -DIRECTION_LIMIT <= v <= DIRECTION_LIMIT,
        999_999 <= root < 0x4000_0000_0000_0000,
        -(root + 1) <= v * 1_000_000 <= root + 1,
    ensures
        r == scaled(v as int, UNIT * UNIT, root as int),
        -2_000_000 <= r <= 2_000_000,
{
    let magnitude: u64 = if v >= 0 { v as u64 } else { (-v) as u64 };
    assert(UNIT * UNIT == 1_000_000_000_000) by (nonlinear_arith);
    assert(0 <= (magnitude * 1_000_000_000_000) / (root as int) <= 2_000_000) by (nonlinear_arith)
        requires
            0 <= magnitude,
            magnitude * 1_000_000 <= root + 1,
            root >= 999_999,
    {
        assert(magnitude * 1_000_000_000_000 <= (root + 1) * 1_000_000);
        assert((root + 1) * 1_000_000 <= root * 2_000_000);
    }
    let q: i64 = ((magnitude as u128 * 1_000_000_000_000) / root as u128) as i64;
    if v >= 0 {
        q
    } else {
        -q
    }
}

/// One coordinate of [`Point::clamp_length`].
fn scale_axis(v: i64, num: u64, den: u64) -> (r: i64)
    requires
        -LOCAL_LIMIT <= v <= LOCAL_LIMIT,
        num <= den,
        0 < den,
    ensures
        r == scaled(v as int, num as int, den as int),
        -LOCAL_LIMIT <= r <= LOCAL_LIMIT,
{
    let magnitude: u64 = if v >= 0 { v as u64 } else { (-v) as u64 };
    proof {
        assert(0 <= magnitude * num <= magnitude * den) by (nonlinear_arith)
            requires
                0 <= num <= den,
                0 <= magnitude,
        ;
        assert(magnitude * den <= 0x1000_0000_0000_0000 * 0xffff_ffff_ffff_ffff) by (nonlinear_arith)
            requires
                0 <= magnitude <= 0x1000_0000_0000_0000,
                0 <= den <= 0xffff_ffff_ffff_ffff,
        ;
        assert(0 <= (magnitude * num) / (den as int) <= magnitude) by (nonlinear_arith)
            requires
                0 <= magnitude * num <= magnitude * den,
                0 < den,
        ;
    }
    let q: i64 = ((magnitude as u128 * num as u128) / den as u128) as i64;
    if v >= 0 {
        q
    } else {
        -q
    }
}

/// A coordinate scaled by `num / den` has at most that share of its square.
proof fn lemma_scaled_square(v: int, num: int, den: int)
    requires
        0 <= num,
        0 < den,
    ensures
        square(scaled(v, num, den)) * (den * den) <= square(v) * (num * num),
{
    let a = if v >= 0 { v } else { -v };
    let q = (a * num) / den;
    assert(0 <= q && q * den <= a * num) by (nonlinear_arith)
        requires
            q == (a * num) / den,
            0 < den,
            0 <= a,
            0 <= num,
    ;
    assert((q * q) * (den * den) <= (a * a) * (num * num)) by (nonlinear_arith)
        requires
            0 <= q,
            0 <= q * den <= a * num,
            0 < den,
    {
        assert((q * den) * (q * den) <= (a * num) * (a * num));
        assert((q * den) * (q * den) == (q * q) * (den * den));
        assert((a * num) * (a * num) == (a * a) * (num * num));
    }
    assert(square(scaled(v, num, den)) == q * q) by (nonlinear_arith)
        requires
            scaled(v, num, den) == q || scaled(v, num, den) == -q,
    ;
    assert(square(v) == a * a) by (nonlinear_arith)
        requires
            a == v || a == -v,
    ;
}

/// A clamped vector is never longer than its limit.
pub proof fn law_clamped_is_short(p: Point, max: u64)
    requires
        p.is_local(),
        max <= LOCAL_LIMIT,
    ensures
        p.clamped(max as int).len2() <= max * max,
{
    let n = p.len2();
    if n > max * max {
        assert(max * max >= 0) by (nonlinear_arith)
            requires
                max >= 0,
        ;
        let d = ceil_sqrt(n);
        lemma_floor_sqrt_exists((n - 1) as nat);
        assert(d * d >= n);
        assert(d > max) by (nonlinear_arith)
            requires
                d * d > max * max,
                d >= 0,
                max >= 0,
        ;
        let m = max as int;
        let (x, y, z) = (scaled(p.x as int, m, d), scaled(p.y as int, m, d), scaled(p.z as int, m, d));
        lemma_scaled_square(p.x as int, m, d);
        lemma_scaled_square(p.y as int, m, d);
        lemma_scaled_square(p.z as int, m, d);
        lemma_scaled_small(p.x as int, m, d);
        lemma_scaled_small(p.y as int, m, d);
        lemma_scaled_small(p.z as int, m, d);
        let c = p.clamped(m);
        assert(c.x == x && c.y == y && c.z == z);
        let total = square(x) + square(y) + square(z);
        assert(total * (d * d) <= n * (m * m)) by (nonlinear_arith)
            requires
                total == square(x) + square(y) + square(z),
                square(x) * (d * d) <= square(p.x as int) * (m * m),
                square(y) * (d * d) <= square(p.y as int) * (m * m),
                square(z) * (d * d) <= square(p.z as int) * (m * m),
                n == square(p.x as int) + square(p.y as int) + square(p.z as int),
        ;
        assert(total <= m * m) by (nonlinear_arith)
            requires
                total * (d * d) <= n * (m * m),
                n <= d * d,
                d * d > 0,
                m * m >= 0,
        ;
    }
}

proof fn lemma_scaled_small(v: int, num: int, den: int)
    requires
        0 <= num <= den,
        0 < den,
        -LOCAL_LIMIT <= v <= LOCAL_LIMIT,
    ensures
        -LOCAL_LIMIT <= scaled(v, num, den) <= LOCAL_LIMIT,
{
    let a = if v >= 0 { v } else { -v };
    assert(0 <= (a * num) / den <= a) by (nonlinear_arith)
        requires
            0 <= num <= den,
            0 < den,
            0 <= a,
    ;
}

// ---- Exact integer arithmetic --------------------------------------------------------

/// `a / b`, rounded down.
pub fn floor_div(a: i128, b: i128) -> (q: i128)
    requires
        0 < b,
    ensures
        q == a as int / b as int,
        a >= 0 ==> 0 <= q <= a,
        a < 0 ==> a <= q < 0,
{
    if a >= 0 {
        let q: u128 = a as u128 / b as u128;
        assert(0 <= a as int / b as int <= a) by (nonlinear_arith)
            requires
                0 <= a,
                0 < b,
        ;
        q as i128
    } else {
        let m: i128 = -(a + 1);
        let q: u128 = m as u128 / b as u128;
        proof {
            let (d, k) = (b as int, m as int / b as int);
            let r = m as int % d;
            vstd::arithmetic::div_mod::lemma_fundamental_div_mod(m as int, d);
            assert(a as int == (-k - 1) * d + (d - r - 1)) by (nonlinear_arith)
                requires
                    m == d * k + r,
                    m == -(a + 1),
            ;
            vstd::arithmetic::div_mod::lemma_fundamental_div_mod_converse(
                a as int,
                d,
                -k - 1,
                d - r - 1,
            );
            assert(0 <= k <= m) by (nonlinear_arith)
                requires
                    k == m as int / d,
                    0 <= m,
                    0 < d,
            ;
        }
        -(q as i128) - 1
    }
}

/// The product of two numbers with known bounds.
pub proof fn lemma_product_bound(a: int, b: int, limit_a: int, limit_b: int)
    requires
        -limit_a <= a <= limit_a,
        -limit_b <= b <= limit_b,
    ensures
        -(limit_a * limit_b) <= a * b <= limit_a * limit_b,
{
    let (p, q) = (if a >= 0 { a } else { -a }, if b >= 0 { b } else { -b });
    assert(p * q <= limit_a * limit_b) by (nonlinear_arith)
        requires
            0 <= p <= limit_a,
            0 <= q <= limit_b,
    ;
    assert(a * b == p * q || a * b == -(p * q)) by (nonlinear_arith)
        requires
            (p == a || p == -a) && (q == b || q == -b),
    ;
    assert(0 <= p * q) by (nonlinear_arith)
        requires
            0 <= p,
            0 <= q,
    ;
}

// ---- Triangles -----------------------------------------------------------------------

/// The normal of the triangle `a`, `b`, `c`, as long as twice its area and pointing to
/// where its corners run counter-clockwise.
pub open spec fn cross_x(a: Point, b: Point, c: Point) -> int {
    (b.y - a.y) * (c.z - a.z) - (b.z - a.z) * (c.y - a.y)
}

pub open spec fn cross_y(a: Point, b: Point, c: Point) -> int {
    (b.z - a.z) * (c.x - a.x) - (b.x - a.x) * (c.z - a.z)
}

pub open spec fn cross_z(a: Point, b: Point, c: Point) -> int {
    (b.x - a.x) * (c.y - a.y) - (b.y - a.y) * (c.x - a.x)
}

/// A vector too long for a [`Point`].
#[derive(Clone, Copy, Debug, PartialEq, Eq, Structural)]
pub struct Long {
    pub x: i128,
    pub y: i128,
    pub z: i128,
}

/// How long the sides of a triangle may be whose normal is added to others (2^40 um).
pub const SIDE_LIMIT: i64 = 0x100_0000_0000;

/// `a * b - c * d`, of differences between coordinates.
fn side_product(a: i64, b: i64, c: i64, d: i64) -> (r: i128)
    requires
        -2 * SIDE_LIMIT <= a <= 2 * SIDE_LIMIT,
        -2 * SIDE_LIMIT <= b <= 2 * SIDE_LIMIT,
        -2 * SIDE_LIMIT <= c <= 2 * SIDE_LIMIT,
        -2 * SIDE_LIMIT <= d <= 2 * SIDE_LIMIT,
    ensures
        r == a * b - c * d,
        -0x8_0000_0000_0000_0000_0000 <= r <= 0x8_0000_0000_0000_0000_0000,
{
    proof {
        lemma_product_bound(a as int, b as int, 0x200_0000_0000, 0x200_0000_0000);
        lemma_product_bound(c as int, d as int, 0x200_0000_0000, 0x200_0000_0000);
    }
    a as i128 * b as i128 - c as i128 * d as i128
}

/// The normal of a triangle, as long as twice its area.
pub fn cross(a: &Point, b: &Point, c: &Point) -> (n: Long)
    requires
        a.within(SIDE_LIMIT as int),
        b.within(SIDE_LIMIT as int),
        c.within(SIDE_LIMIT as int),
    ensures
        n.x == cross_x(*a, *b, *c),
        n.y == cross_y(*a, *b, *c),
        n.z == cross_z(*a, *b, *c),
        -0x8_0000_0000_0000_0000_0000 <= n.x <= 0x8_0000_0000_0000_0000_0000,
        -0x8_0000_0000_0000_0000_0000 <= n.y <= 0x8_0000_0000_0000_0000_0000,
        -0x8_0000_0000_0000_0000_0000 <= n.z <= 0x8_0000_0000_0000_0000_0000,
{
    let (px, py, pz): (i64, i64, i64) = (b.x - a.x, b.y - a.y, b.z - a.z);
    let (qx, qy, qz): (i64, i64, i64) = (c.x - a.x, c.y - a.y, c.z - a.z);
    Long {
        x: side_product(py, qz, pz, qy),
        y: side_product(pz, qx, px, qz),
        z: side_product(px, qy, py, qx),
    }
}

// ---- What the vectors promise --------------------------------------------------------

/// A scaled number has the sign of the number, and lies less than one below its exact share,
/// seen from zero.
pub proof fn law_scaling_rounds_towards_zero(v: int, num: int, den: int)
    requires
        0 <= num,
        0 < den,
    ensures
        v >= 0 ==> scaled(v, num, den) >= 0 && den * scaled(v, num, den) <= v * num < den * scaled(
            v,
            num,
            den,
        ) + den,
        v <= 0 ==> scaled(v, num, den) <= 0 && den * scaled(v, num, den) - den < v * num <= den
            * scaled(v, num, den),
{
    let a = if v >= 0 { v } else { -v };
    assert(a * num >= 0) by (nonlinear_arith)
        requires
            a >= 0,
            num >= 0,
    ;
    let q = (a * num) / den;
    vstd::arithmetic::div_mod::lemma_fundamental_div_mod(a * num, den);
    vstd::arithmetic::div_mod::lemma_mod_bound(a * num, den);
    vstd::arithmetic::div_mod::lemma_div_pos_is_pos(a * num, den);
    if v <= 0 {
        assert(a * num == -(v * num)) by (nonlinear_arith)
            requires
                a == -v,
        ;
        assert(den * (-q) == -(den * q)) by (nonlinear_arith);
        if v == 0 {
            assert(0int * num == 0);
            vstd::arithmetic::div_mod::lemma_div_of0(den);
        }
    }
}

/// The unit vector of a short vector is the vector divided by its length, axis by axis, to
/// the millionth: `m` is a million times that length, rounded down. Nothing has none.
pub proof fn law_a_unit_vector_keeps_the_direction(p: Point, m: int)
    requires
        p.within(0x4000_0000),
        p.x * p.x + p.y * p.y + p.z * p.z > 0,
        0 <= m,
        m * m <= 1_000_000_000_000 * (p.x * p.x + p.y * p.y + p.z * p.z) < (m + 1) * (m + 1),
    ensures
        ({
            let u = p.unit();
            &&& p.x >= 0 ==> u.x >= 0 && m * u.x <= 1_000_000_000_000 * p.x < m * u.x + m
            &&& p.y >= 0 ==> u.y >= 0 && m * u.y <= 1_000_000_000_000 * p.y < m * u.y + m
            &&& p.z >= 0 ==> u.z >= 0 && m * u.z <= 1_000_000_000_000 * p.z < m * u.z + m
            &&& p.x <= 0 ==> u.x <= 0 && m * u.x - m < 1_000_000_000_000 * p.x <= m * u.x
            &&& p.y <= 0 ==> u.y <= 0 && m * u.y - m < 1_000_000_000_000 * p.y <= m * u.y
            &&& p.z <= 0 ==> u.z <= 0 && m * u.z - m < 1_000_000_000_000 * p.z <= m * u.z
            &&& p.direction() == u
        }),
{
    let n = p.len2();
    assert(UNIT * UNIT == 1_000_000_000_000) by (nonlinear_arith);
    assert(n * 1_000_000_000_000 == 1_000_000_000_000 * n);
    lemma_floor_sqrt_unique(m as nat, (n * (UNIT * UNIT)) as nat);
    lemma_axis_within_length(p);
    lemma_unit_axis(p.x as int, n, m);
    lemma_unit_axis(p.y as int, n, m);
    lemma_unit_axis(p.z as int, n, m);
}

proof fn lemma_unit_axis(v: int, n: int, m: int)
    requires
        square(v) <= n,
        1 <= n,
        m >= 0,
        n * 1_000_000_000_000 < (m + 1) * (m + 1),
    ensures
        -2_000_000 <= scaled(v, 1_000_000_000_000, m) <= 2_000_000,
        ({
            let s = scaled(v, 1_000_000_000_000, m);
            &&& v >= 0 ==> s >= 0 && m * s <= 1_000_000_000_000 * v < m * s + m
            &&& v <= 0 ==> s <= 0 && m * s - m < 1_000_000_000_000 * v <= m * s
        }),
{
    lemma_root_dominates(v, n, m);
    law_scaling_rounds_towards_zero(v, 1_000_000_000_000, m);
    let s = scaled(v, 1_000_000_000_000, m);
    if s > 2_000_000 {
        assert(m * s >= m * 2_000_001) by (nonlinear_arith)
            requires
                s >= 2_000_001,
                m >= 0,
        ;
    }
    if s < -2_000_000 {
        assert(m * s <= m * (-2_000_001)) by (nonlinear_arith)
            requires
                s <= -2_000_001,
                m >= 0,
        ;
    }
}

/// The direction of a long vector is the vector divided by its length, axis by axis, to the
/// millionth: `m` is that length, rounded down.
pub proof fn law_a_long_vector_keeps_its_direction(p: Point, m: int)
    requires
        p.within(SPAN_LIMIT as int),
        !p.within(0x4000_0000),
        0 <= m,
        m * m <= p.x * p.x + p.y * p.y + p.z * p.z < (m + 1) * (m + 1),
    ensures
        ({
            let u = p.direction();
            &&& p.x >= 0 ==> u.x >= 0 && m * u.x <= 1_000_000 * p.x < m * u.x + m
            &&& p.y >= 0 ==> u.y >= 0 && m * u.y <= 1_000_000 * p.y < m * u.y + m
            &&& p.z >= 0 ==> u.z >= 0 && m * u.z <= 1_000_000 * p.z < m * u.z + m
            &&& p.x <= 0 ==> u.x <= 0 && m * u.x - m < 1_000_000 * p.x <= m * u.x
            &&& p.y <= 0 ==> u.y <= 0 && m * u.y - m < 1_000_000 * p.y <= m * u.y
            &&& p.z <= 0 ==> u.z <= 0 && m * u.z - m < 1_000_000 * p.z <= m * u.z
        }),
{
    let n = p.len2();
    lemma_square_sign(p.x as int);
    lemma_square_sign(p.y as int);
    lemma_square_sign(p.z as int);
    lemma_floor_sqrt_unique(m as nat, n as nat);
    lemma_within_root(p.x as int, n as nat, m as nat);
    lemma_within_root(p.y as int, n as nat, m as nat);
    lemma_within_root(p.z as int, n as nat, m as nat);
    assert(m > 0);
    lemma_long_axis(p.x as int, m);
    lemma_long_axis(p.y as int, m);
    lemma_long_axis(p.z as int, m);
}

proof fn lemma_long_axis(v: int, m: int)
    requires
        -m <= v <= m,
        0 < m,
    ensures
        -1_000_000 <= scaled(v, 1_000_000, m) <= 1_000_000,
        ({
            let s = scaled(v, 1_000_000, m);
            &&& v >= 0 ==> s >= 0 && m * s <= 1_000_000 * v < m * s + m
            &&& v <= 0 ==> s <= 0 && m * s - m < 1_000_000 * v <= m * s
        }),
{
    law_scaling_rounds_towards_zero(v, 1_000_000, m);
    let s = scaled(v, 1_000_000, m);
    if s > 1_000_000 {
        assert(m * s >= m * 1_000_001) by (nonlinear_arith)
            requires
                s >= 1_000_001,
                m >= 0,
        ;
    }
    if s < -1_000_000 {
        assert(m * s <= m * (-1_000_001)) by (nonlinear_arith)
            requires
                s <= -1_000_001,
                m >= 0,
        ;
    }
}

/// A vector that is short enough is left alone. A longer one is brought to the limit along
/// its own direction, axis by axis, to the unit: `d` is its length, rounded up.
pub proof fn law_clamping_keeps_the_direction(p: Point, max: u64, d: int)
    requires
        p.is_local(),
        max <= LOCAL_LIMIT,
        1 <= d,
        (d - 1) * (d - 1) < p.x * p.x + p.y * p.y + p.z * p.z <= d * d,
    ensures
        ({
            let c = p.clamped(max as int);
            &&& p.x * p.x + p.y * p.y + p.z * p.z <= max * max ==> c == p
            &&& p.x * p.x + p.y * p.y + p.z * p.z > max * max ==> {
                &&& p.x >= 0 ==> c.x >= 0 && d * c.x <= max * p.x < d * c.x + d
                &&& p.y >= 0 ==> c.y >= 0 && d * c.y <= max * p.y < d * c.y + d
                &&& p.z >= 0 ==> c.z >= 0 && d * c.z <= max * p.z < d * c.z + d
                &&& p.x <= 0 ==> c.x <= 0 && d * c.x - d < max * p.x <= d * c.x
                &&& p.y <= 0 ==> c.y <= 0 && d * c.y - d < max * p.y <= d * c.y
                &&& p.z <= 0 ==> c.z <= 0 && d * c.z - d < max * p.z <= d * c.z
            }
        }),
{
    let n = p.len2();
    let m = max as int;
    if n > m * m {
        assert(m * m >= 0) by (nonlinear_arith);
        lemma_floor_sqrt_unique((d - 1) as nat, (n - 1) as nat);
        assert(ceil_sqrt(n) == d);
        assert(d > m) by (nonlinear_arith)
            requires
                d * d > m * m,
                d >= 0,
                m >= 0,
        ;
        lemma_scaled_small(p.x as int, m, d);
        lemma_scaled_small(p.y as int, m, d);
        lemma_scaled_small(p.z as int, m, d);
        law_scaling_rounds_towards_zero(p.x as int, m, d);
        law_scaling_rounds_towards_zero(p.y as int, m, d);
        law_scaling_rounds_towards_zero(p.z as int, m, d);
        lemma_swap(p.x as int, m);
        lemma_swap(p.y as int, m);
        lemma_swap(p.z as int, m);
    }
}

proof fn lemma_swap(a: int, b: int)
    ensures
        a * b == b * a,
{
    assert(a * b == b * a) by (nonlinear_arith);
}

/// The normal of a triangle stands square on both of its sides, and turns over with them.
pub proof fn law_a_normal_stands_on_its_triangle(a: Point, b: Point, c: Point)
    ensures
        cross_x(a, b, c) * (b.x - a.x) + cross_y(a, b, c) * (b.y - a.y) + cross_z(a, b, c) * (b.z
            - a.z) == 0,
        cross_x(a, b, c) * (c.x - a.x) + cross_y(a, b, c) * (c.y - a.y) + cross_z(a, b, c) * (c.z
            - a.z) == 0,
        cross_x(a, c, b) == -cross_x(a, b, c),
        cross_y(a, c, b) == -cross_y(a, b, c),
        cross_z(a, c, b) == -cross_z(a, b, c),
{
    let (p, q, r) = (b.x - a.x, b.y - a.y, b.z - a.z);
    let (s, t, u) = (c.x - a.x, c.y - a.y, c.z - a.z);
    lemma_square_on(p, q, r, s, t, u);
    assert(t * r == r * t && u * q == q * u && u * p == p * u && s * r == r * s && s * q == q * s
        && t * p == p * t) by (nonlinear_arith);
}

proof fn lemma_square_on(p: int, q: int, r: int, s: int, t: int, u: int)
    ensures
        (q * u - r * t) * p + (r * s - p * u) * q + (p * t - q * s) * r == 0,
        (q * u - r * t) * s + (r * s - p * u) * t + (p * t - q * s) * u == 0,
{
    assert((q * u - r * t) * p + (r * s - p * u) * q + (p * t - q * s) * r == 0)
        by (nonlinear_arith);
    assert((q * u - r * t) * s + (r * s - p * u) * t + (p * t - q * s) * u == 0)
        by (nonlinear_arith);
}

/// Counter-clockwise in a coordinate plane the normal points along the third axis, and is as
/// long as the two sides' product.
pub proof fn law_normals_are_right_handed(a: Point, b: Point, c: Point, k: int, m: int)
    ensures
        b.x - a.x == k && b.y == a.y && b.z == a.z && c.x == a.x && c.y - a.y == m && c.z == a.z
            ==> cross_x(a, b, c) == 0 && cross_y(a, b, c) == 0 && cross_z(a, b, c) == k * m,
        b.x == a.x && b.y - a.y == k && b.z == a.z && c.x == a.x && c.y == a.y && c.z - a.z == m
            ==> cross_x(a, b, c) == k * m && cross_y(a, b, c) == 0 && cross_z(a, b, c) == 0,
        b.x == a.x && b.y == a.y && b.z - a.z == k && c.x - a.x == m && c.y == a.y && c.z == a.z
            ==> cross_x(a, b, c) == 0 && cross_y(a, b, c) == k * m && cross_z(a, b, c) == 0,
{
    assert(forall|v: int| #![trigger v * 0] v * 0 == 0);
    assert(0 * m == 0 && 0 * k == 0 && k * 0 == 0 && m * 0 == 0) by (nonlinear_arith);
}

/// The direction of a vector is about as long as a unit.
pub proof fn lemma_direction_bound(p: Point)
    requires
        p.within(SPAN_LIMIT as int),
    ensures
        p.direction().within(2_000_000),
{
    let n = p.len2();
    lemma_square_sign(p.x as int);
    lemma_square_sign(p.y as int);
    lemma_square_sign(p.z as int);
    if p.within(0x4000_0000) {
        if n == 0 {
            lemma_no_length(p);
        } else {
            assert(UNIT * UNIT == 1_000_000_000_000) by (nonlinear_arith);
            lemma_floor_sqrt_exists((n * (UNIT * UNIT)) as nat);
            let m = floor_sqrt((n * (UNIT * UNIT)) as nat) as int;
            lemma_axis_within_length(p);
            lemma_unit_axis(p.x as int, n, m);
            lemma_unit_axis(p.y as int, n, m);
            lemma_unit_axis(p.z as int, n, m);
        }
    } else {
        lemma_floor_sqrt_exists(n as nat);
        let m = floor_sqrt(n as nat) as int;
        lemma_within_root(p.x as int, n as nat, m as nat);
        lemma_within_root(p.y as int, n as nat, m as nat);
        lemma_within_root(p.z as int, n as nat, m as nat);
        lemma_long_axis(p.x as int, m);
        lemma_long_axis(p.y as int, m);
        lemma_long_axis(p.z as int, m);
    }
}

} // verus!
