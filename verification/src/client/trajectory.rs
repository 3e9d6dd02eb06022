//! The flight trajectory line: where the launched assembly has been, and where the plan
//! takes it from here.
//!
//! The line is drawn as a thin tube. It is clear around the vehicle itself: no alpha at
//! all within [`FADE_HOLD`] of path length either side of it, then a smooth ramp to full
//! strength over the next [`FADE_RAMP`]. Alpha lives on the rings of the tube, so the path
//! is resampled inside that window; elsewhere its own points are enough.

use crate::client::colour::{rgb, Rgba};
use crate::client::launch::thrust::AutopilotSnapshot;
use crate::geom::{floor_div, lemma_dist_at_least, lemma_dist_small, lemma_product_bound, Point};
use crate::geom::WORLD_LIMIT;
use vstd::prelude::*;

verus! {

/// Two recorded points no further apart than this are one point (1 mm, squared).
pub const DUPLICATE_SQUARED: u128 = 1_000_000;

/// Half width of the clear core around the vehicle.
pub const FADE_HOLD: i128 = 30_000_000;

/// Path length over which the line comes in, from the edge of the clear core.
pub const FADE_RAMP: i128 = 50_000_000;

/// Half width of the stretch that is resampled: clear core and ramp.
pub const FADE_WINDOW: i128 = 80_000_000;

/// Spacing of the rings inside the window.
pub const FADE_STEP: i128 = 4_000_000;

/// A sample this close to an end of its segment adds nothing to it.
pub const FADE_MARGIN: i128 = 1_000;

/// Full strength of the line.
pub const OPAQUE: u32 = 1_000_000;

/// Corners of the tube's cross-section.
pub const TUBE_SIDES: u32 = 5;

/// The tube's radius is this many hundred-thousandths of the distance to the camera...
pub const LINE_RADIUS_PER_100_000: u64 = 75;

/// ...but never below this.
pub const MIN_RADIUS: u64 = 12_500;

/// More points than this have rings that a 32-bit index cannot number.
pub const MAX_POINTS: usize = 400_000_000;

/// The most rings that a path of [`MAX_POINTS`] has.
pub const MAX_RINGS: usize = 800_000_040;

/// The tube is never wider than this (2^52 um).
pub const RADIUS_LIMIT: u64 = 0x10_0000_0000_0000;

/// One ring of the tube.
#[derive(Clone, Copy, Debug, PartialEq, Eq, Structural)]
pub struct TubeRing {
    /// Where the ring's centre lies.
    pub centre: Point,
    /// Path length from the start of the line.
    pub arc: i128,
    /// Radius of the tube here.
    pub radius: u64,
    /// Strength of the line here, out of [`OPAQUE`].
    pub alpha: u32,
}

/// The tube: its rings in path order, and the triangles between them. Corner `s` of ring
/// `i` is vertex `i * TUBE_SIDES + s`.
pub struct TubeMesh {
    pub rings: Vec<TubeRing>,
    pub indices: Vec<u32>,
}

impl TubeRing {
    /// Whether the ring is one of a path of local positions.
    pub open spec fn valid(self) -> bool {
        self.centre.is_local() && self.radius <= RADIUS_LIMIT
    }
}

/// Whether every ring is one of a path of local positions.
pub open spec fn rings_valid(rings: Seq<TubeRing>) -> bool {
    forall|i: int| 0 <= i < rings.len() ==> (#[trigger] rings[i]).valid()
}

impl TubeMesh {
    /// Whether the tube has two rings or more, and no more than can be numbered.
    pub open spec fn valid(self) -> bool {
        2 <= self.rings.len() <= MAX_RINGS && rings_valid(self.rings@)
    }
}

/// The points that are drawn: those that exist and lie off the point drawn before them.
pub open spec fn distinct(points: Seq<Option<Point>>) -> Seq<Point>
    decreases points.len(),
{
    if points.len() == 0 {
        Seq::empty()
    } else {
        let kept = distinct(points.drop_last());
        match points.last() {
            Some(p) => if kept.len() == 0 || kept.last().dist2(p) > DUPLICATE_SQUARED {
                kept.push(p)
            } else {
                kept
            },
            None => kept,
        }
    }
}

/// Which drawn point stands for point `anchor` of the path: itself, or its kept twin.
pub open spec fn anchor_point(points: Seq<Option<Point>>, anchor: int) -> int {
    if 0 <= anchor < points.len() && distinct(points.take(anchor + 1)).len() > 0 {
        distinct(points.take(anchor + 1)).len() - 1
    } else {
        0
    }
}

/// Path length from the first point to point `i`.
pub open spec fn arc_at(pts: Seq<Point>, i: int) -> int
    decreases i,
{
    if i <= 0 {
        0
    } else {
        arc_at(pts, i - 1) + pts[i - 1].dist(pts[i])
    }
}

/// The path lengths at which a segment that runs from `a0` to `a1` is sampled: every
/// [`FADE_STEP`] from `s` up to `hi`, clear of both ends.
pub open spec fn samples(s: int, hi: int, a0: int, a1: int) -> Seq<int>
    decreases
            if s >= hi {
                0
            } else {
                hi - s
            },
{
    if s >= hi {
        Seq::empty()
    } else if a0 + FADE_MARGIN < s < a1 - FADE_MARGIN {
        seq![s] + samples(s + FADE_STEP, hi, a0, a1)
    } else {
        samples(s + FADE_STEP, hi, a0, a1)
    }
}

/// Where sampling starts on a segment that begins at `a0`.
pub open spec fn window_start(a0: int, anchor_arc: int) -> int {
    if a0 >= anchor_arc - FADE_WINDOW {
        a0
    } else {
        anchor_arc - FADE_WINDOW
    }
}

/// Where sampling ends on a segment that ends at `a1`.
pub open spec fn window_end(a1: int, anchor_arc: int) -> int {
    if a1 <= anchor_arc + FADE_WINDOW {
        a1
    } else {
        anchor_arc + FADE_WINDOW
    }
}

/// Strength of the line at path length `d` from the vehicle: nothing in the clear core,
/// everything outside the window, and `3t^2 - 2t^3` of the way in between.
pub open spec fn fade_alpha(d: int) -> int {
    let u = if d <= FADE_HOLD {
        0
    } else if d >= FADE_WINDOW {
        FADE_RAMP as int
    } else {
        d - FADE_HOLD
    };
    (u * u * (3 * FADE_RAMP - 2 * u) * OPAQUE) / (FADE_RAMP * FADE_RAMP * FADE_RAMP)
}

/// Radius of the tube at distance `d` from the camera.
pub open spec fn tube_radius(d: int) -> int {
    if d * LINE_RADIUS_PER_100_000 / 100_000 <= MIN_RADIUS {
        MIN_RADIUS as int
    } else {
        d * LINE_RADIUS_PER_100_000 / 100_000
    }
}

/// How far apart two path lengths are.
pub open spec fn gap(a: int, b: int) -> int {
    if a <= b {
        b - a
    } else {
        a - b
    }
}

/// The ring at `centre`, at path length `arc`.
pub open spec fn ring_at(centre: Point, arc: int, anchor_arc: int, cam: Point) -> TubeRing {
    TubeRing {
        centre,
        arc: arc as i128,
        radius: tube_radius(centre.dist(cam) as int) as u64,
        alpha: fade_alpha(gap(arc, anchor_arc)) as u32,
    }
}

/// The rings of one segment behind its first point.
pub open spec fn segment_rings(
    p: Point,
    q: Point,
    a0: int,
    a1: int,
    anchor_arc: int,
    cam: Point,
) -> Seq<TubeRing> {
    samples(window_start(a0, anchor_arc), window_end(a1, anchor_arc), a0, a1).map_values(
        |s: int| ring_at(p.toward(q, s - a0, a1 - a0), s, anchor_arc, cam),
    ).push(ring_at(q, a1, anchor_arc, cam))
}

/// The rings of the line up to drawn point `i`.
pub open spec fn rings_upto(pts: Seq<Point>, anchor_arc: int, cam: Point, i: int) -> Seq<TubeRing>
    decreases i,
{
    if i <= 0 {
        seq![ring_at(pts[0], 0, anchor_arc, cam)]
    } else {
        rings_upto(pts, anchor_arc, cam, i - 1) + segment_rings(
            pts[i - 1],
            pts[i],
            arc_at(pts, i - 1),
            arc_at(pts, i),
            anchor_arc,
            cam,
        )
    }
}

/// Path length of the vehicle.
pub open spec fn anchor_arc(points: Seq<Option<Point>>, anchor: int) -> int {
    arc_at(distinct(points), anchor_point(points, anchor))
}

/// All rings of the line.
pub open spec fn tube_rings(points: Seq<Option<Point>>, anchor: int, cam: Point) -> Seq<TubeRing> {
    rings_upto(
        distinct(points),
        anchor_arc(points, anchor),
        cam,
        distinct(points).len() - 1,
    )
}

/// The two triangles between corners `s` and `s + 1` of rings `i` and `i + 1`, wound so
/// that they face out of the tube.
pub open spec fn quad(i: int, s: int) -> Seq<u32> {
    let ra = i * TUBE_SIDES;
    let rb = (i + 1) * TUBE_SIDES;
    let s1 = (s + 1) % (TUBE_SIDES as int);
    seq![
        (ra + s) as u32,
        (ra + s1) as u32,
        (rb + s) as u32,
        (ra + s1) as u32,
        (rb + s1) as u32,
        (rb + s) as u32,
    ]
}

/// The triangles between rings `i` and `i + 1` over the first `s` sides.
pub open spec fn ring_quads(i: int, s: int) -> Seq<u32>
    decreases s,
{
    if s <= 0 {
        Seq::empty()
    } else {
        ring_quads(i, s - 1) + quad(i, s - 1)
    }
}

/// The triangles of a tube of `n` rings.
pub open spec fn stitch(n: int) -> Seq<u32>
    decreases n,
{
    if n <= 1 {
        Seq::empty()
    } else {
        stitch(n - 1) + ring_quads(n - 2, TUBE_SIDES as int)
    }
}

/// Whether every point that exists is a local position.
pub open spec fn all_local(points: Seq<Option<Point>>) -> bool {
    forall|i: int| 0 <= i < points.len() ==> match #[trigger] points[i] {
        Some(p) => p.is_local(),
        None => true,
    }
}

/// Whether every position is a local one.
pub open spec fn pts_local(pts: Seq<Point>) -> bool {
    forall|i: int| 0 <= i < pts.len() ==> (#[trigger] pts[i]).is_local()
}

/// Whether each position lies off the one before it.
pub open spec fn pts_apart(pts: Seq<Point>) -> bool {
    forall|i: int| 0 < i < pts.len() ==> pts[i - 1].dist2(#[trigger] pts[i]) > DUPLICATE_SQUARED
}

proof fn lemma_distinct_shape(points: Seq<Option<Point>>)
    requires
        all_local(points),
    ensures
        pts_local(distinct(points)),
        pts_apart(distinct(points)),
        distinct(points).len() <= points.len(),
    decreases points.len(),
{
    if points.len() > 0 {
        assert(all_local(points.drop_last())) by {
            assert forall|i: int| 0 <= i < points.drop_last().len() implies match #[trigger] points.drop_last()[i] {
                Some(p) => p.is_local(),
                None => true,
            } by {
                assert(points.drop_last()[i] == points[i]);
            }
        }
        lemma_distinct_shape(points.drop_last());
        assert(points[points.len() - 1] == points.last());
    }
}

proof fn lemma_distinct_prefix(points: Seq<Option<Point>>, k: int)
    requires
        0 <= k <= points.len(),
    ensures
        distinct(points.take(k)).len() <= distinct(points).len(),
        forall|i: int|
            0 <= i < distinct(points.take(k)).len() ==> distinct(points)[i] == #[trigger] distinct(
                points.take(k),
            )[i],
    decreases points.len(),
{
    if k == points.len() {
        assert(points.take(k) =~= points);
    } else {
        lemma_distinct_prefix(points.drop_last(), k);
        assert(points.drop_last().take(k) =~= points.take(k));
    }
}

/// Strength of the line at distance `d` from the vehicle.
pub fn fade(d: u128) -> (alpha: u32)
    ensures
        alpha == fade_alpha(d as int),
        alpha <= OPAQUE,
{
    let u: u128 = if d <= FADE_HOLD as u128 {
        0
    } else if d >= FADE_WINDOW as u128 {
        FADE_RAMP as u128
    } else {
        d - FADE_HOLD as u128
    };
    proof {
        lemma_ramp_bounds(u as int);
    }
    let weight: u128 = u * u * (150_000_000 - 2 * u);
    (weight * 1_000_000 / 125_000_000_000_000_000_000_000) as u32
}

proof fn lemma_ramp_bounds(u: int)
    requires
        0 <= u <= FADE_RAMP,
    ensures
        0 <= u * u <= 2_500_000_000_000_000,
        0 <= u * u * (150_000_000 - 2 * u) <= 125_000_000_000_000_000_000_000,
        FADE_RAMP * FADE_RAMP * FADE_RAMP == 125_000_000_000_000_000_000_000,
{
    assert(0 <= u * u <= 2_500_000_000_000_000) by (nonlinear_arith)
        requires
            0 <= u <= 50_000_000,
    ;
    assert(0 <= u * u * (150_000_000 - 2 * u)) by (nonlinear_arith)
        requires
            0 <= u <= 50_000_000,
    ;
    // The cubic falls short of R^3 by (R - u)^2 (R + 2u), which is never negative.
    assert(125_000_000_000_000_000_000_000 - u * u * (150_000_000 - 2 * u) == (50_000_000 - u) * (
    50_000_000 - u) * (50_000_000 + 2 * u)) by (nonlinear_arith);
    assert((50_000_000 - u) * (50_000_000 - u) * (50_000_000 + 2 * u) >= 0) by (nonlinear_arith)
        requires
            0 <= u <= 50_000_000,
    ;
    assert(FADE_RAMP * FADE_RAMP * FADE_RAMP == 125_000_000_000_000_000_000_000)
        by (nonlinear_arith);
}

/// Rings that samples add are bounded by the stretch they cover.
proof fn lemma_samples_len(s: int, hi: int, a0: int, a1: int)
    requires
        s < hi,
    ensures
        samples(s, hi, a0, a1).len() * FADE_STEP <= hi - s + FADE_STEP,
    decreases hi - s,
{
    reveal_with_fuel(samples, 2);
    if s + FADE_STEP < hi {
        lemma_samples_len(s + FADE_STEP, hi, a0, a1);
    }
}

/// `a` brought into the window.
spec fn clamped(a: int, anchor_arc: int) -> int {
    if a <= anchor_arc - FADE_WINDOW {
        anchor_arc - FADE_WINDOW
    } else if a >= anchor_arc + FADE_WINDOW {
        anchor_arc + FADE_WINDOW
    } else {
        a
    }
}

/// The number of rings: two for each point, and one for each step of the window.
proof fn lemma_ring_count(pts: Seq<Point>, anchor_arc: int, cam: Point, i: int)
    requires
        0 <= i < pts.len(),
    ensures
        (rings_upto(pts, anchor_arc, cam, i).len() - 1 - 2 * i) * FADE_STEP <= clamped(
            arc_at(pts, i),
            anchor_arc,
        ) - (anchor_arc - FADE_WINDOW),
        rings_upto(pts, anchor_arc, cam, i).len() >= i + 1,
    decreases i,
{
    if i > 0 {
        lemma_ring_count(pts, anchor_arc, cam, i - 1);
        let a0 = arc_at(pts, i - 1);
        let a1 = arc_at(pts, i);
        let s = window_start(a0, anchor_arc);
        let hi = window_end(a1, anchor_arc);
        if s < hi {
            lemma_samples_len(s, hi, a0, a1);
        } else {
            assert(samples(s, hi, a0, a1).len() == 0);
        }
    }
}

proof fn lemma_arc_bound(pts: Seq<Point>, i: int)
    requires
        pts_local(pts),
        0 <= i < pts.len(),
    ensures
        0 <= arc_at(pts, i) <= i * 0x4000_0000_0000_0000,
    decreases i,
{
    if i > 0 {
        lemma_arc_bound(pts, i - 1);
        lemma_dist_small(pts[i - 1], pts[i]);
    }
}

/// The points that are drawn, and which of them stands for the vehicle.
fn drawn_points(points: &[Option<Point>], anchor: usize) -> (r: (Vec<Point>, usize))
    requires
        all_local(points@),
    ensures
        r.0@ == distinct(points@),
        r.1 == anchor_point(points@, anchor as int),
        r.0.len() > 0 ==> r.1 < r.0.len(),
{
    let mut pts: Vec<Point> = Vec::new();
    let mut anchor_pt: usize = 0;
    let mut i: usize = 0;
    while i < points.len()
        invariant
            0 <= i <= points.len(),
            all_local(points@),
            pts@ == distinct(points@.take(i as int)),
            anchor_pt == (if anchor < i {
                anchor_point(points@, anchor as int)
            } else {
                0
            }),
            pts_local(pts@),
            pts.len() > 0 ==> anchor_pt < pts.len(),
            pts.len() == 0 ==> anchor_pt == 0,
        decreases points.len() - i,
    {
        proof {
            let upto = points@.take(i + 1);
            assert(upto.drop_last() =~= points@.take(i as int));
            assert(upto.last() == points@[i as int]);
        }
        if let Some(p) = points[i] {
            let far = pts.len() == 0 || pts[pts.len() - 1].distance_squared(&p) > DUPLICATE_SQUARED;
            if far {
                pts.push(p);
            }
        }
        if i == anchor && pts.len() > 0 {
            anchor_pt = pts.len() - 1;
        }
        i = i + 1;
    }
    assert(points@.take(points.len() as int) =~= points@);
    (pts, anchor_pt)
}

/// The ring at `centre`.
fn make_ring(centre: Point, arc: i128, anchor_arc: i128, cam: &Point) -> (ring: TubeRing)
    requires
        centre.is_local(),
        cam.is_local(),
        0 <= arc,
        0 <= anchor_arc,
    ensures
        ring == ring_at(centre, arc as int, anchor_arc as int, *cam),
        ring.valid(),
{
    let d: u64 = centre.distance(cam);
    let scaled: u64 = (d as u128 * LINE_RADIUS_PER_100_000 as u128 / 100_000) as u64;
    let radius: u64 = if scaled <= MIN_RADIUS { MIN_RADIUS } else { scaled };
    let away: u128 = if arc <= anchor_arc { (anchor_arc - arc) as u128 } else { (arc - anchor_arc) as u128 };
    TubeRing { centre, arc, radius, alpha: fade(away) }
}

/// Appends the rings of the segment from `p` to `q` to `rings`.
fn push_segment(
    rings: &mut Vec<TubeRing>,
    p: &Point,
    q: &Point,
    a0: i128,
    a1: i128,
    anchor_arc: i128,
    cam: &Point,
)
    requires
        p.is_local(),
        q.is_local(),
        cam.is_local(),
        0 <= a0 < a1 < 0x4000_0000_0000_0000_0000_0000_0000_0000,
        a1 - a0 < 0x4000_0000_0000_0000,
        0 <= anchor_arc < 0x4000_0000_0000_0000_0000_0000_0000_0000,
        rings_valid(old(rings)@),
    ensures
        rings_valid(final(rings)@),
        final(rings)@ == old(rings)@ + segment_rings(
            *p,
            *q,
            a0 as int,
            a1 as int,
            anchor_arc as int,
            *cam,
        ),
{
    let hi: i128 = if a1 <= anchor_arc + FADE_WINDOW { a1 } else { anchor_arc + FADE_WINDOW };
    let mut s: i128 = if a0 >= anchor_arc - FADE_WINDOW { a0 } else { anchor_arc - FADE_WINDOW };
    let ghost f = |s: int| ring_at(p.toward(*q, s - a0, a1 - a0), s, anchor_arc as int, *cam);
    let ghost all = samples(s as int, hi as int, a0 as int, a1 as int);
    let ghost before = rings@;
    assert(before + all.map_values(f) =~= rings@ + samples(
        s as int,
        hi as int,
        a0 as int,
        a1 as int,
    ).map_values(f));
    while s < hi
        invariant
            p.is_local(),
            q.is_local(),
            cam.is_local(),
            0 <= a0 < a1 < 0x4000_0000_0000_0000_0000_0000_0000_0000,
            a1 - a0 < 0x4000_0000_0000_0000,
            0 <= anchor_arc,
            hi <= a1,
            a0 <= s,
            s < 0x4000_0000_0000_0000_0000_0000_0000_0000 + FADE_STEP,
            rings_valid(rings@),
            f == (|s: int| ring_at(p.toward(*q, s - a0, a1 - a0), s, anchor_arc as int, *cam)),
            before + all.map_values(f) == rings@ + samples(
                s as int,
                hi as int,
                a0 as int,
                a1 as int,
            ).map_values(f),
        decreases hi - s + FADE_STEP,
    {
        let ghost rest = samples(s + FADE_STEP, hi as int, a0 as int, a1 as int);
        if a0 + FADE_MARGIN < s && s < a1 - FADE_MARGIN {
            let centre: Point = p.lerp(q, (s - a0) as u64, (a1 - a0) as u64);
            assert((seq![s as int] + rest).map_values(f) =~= seq![f(s as int)] + rest.map_values(f));
            assert(rings@ + (seq![f(s as int)] + rest.map_values(f)) =~= rings@.push(f(s as int))
                + rest.map_values(f));
            rings.push(make_ring(centre, s, anchor_arc, cam));
        }
        s = s + FADE_STEP;
    }
    let ghost sampled = rings@;
    assert(samples(s as int, hi as int, a0 as int, a1 as int).map_values(f) =~= Seq::<TubeRing>::empty());
    assert(sampled =~= before + all.map_values(f));
    rings.push(make_ring(*q, a1, anchor_arc, cam));
    assert(rings@ =~= before + all.map_values(f).push(ring_at(*q, a1 as int, anchor_arc as int, *cam)));
}

/// The triangles of a tube of `n` rings.
fn stitch_rings(n: usize) -> (indices: Vec<u32>)
    requires
        n <= MAX_RINGS,
    ensures
        indices@ == stitch(n as int),
{
    let mut indices: Vec<u32> = Vec::new();
    if n == 0 {
        return indices;
    }
    let mut i: usize = 1;
    while i < n
        invariant
            1 <= i <= n <= MAX_RINGS,
            indices@ == stitch(i as int),
        decreases n - i,
    {
        let ghost before = indices@;
        let ra: u32 = (i as u32 - 1) * TUBE_SIDES;
        let rb: u32 = i as u32 * TUBE_SIDES;
        let mut s: u32 = 0;
        while s < TUBE_SIDES
            invariant
                s <= TUBE_SIDES,
                1 <= i < n <= MAX_RINGS,
                ra == (i - 1) * TUBE_SIDES,
                rb == i * TUBE_SIDES,
                indices@ == before + ring_quads(i - 1, s as int),
            decreases TUBE_SIDES - s,
        {
            let s1: u32 = (s + 1) % TUBE_SIDES;
            let ghost here = indices@;
            indices.push(ra + s);
            indices.push(ra + s1);
            indices.push(rb + s);
            indices.push(ra + s1);
            indices.push(rb + s1);
            indices.push(rb + s);
            assert(indices@ =~= here + quad(i - 1, s as int));
            s = s + 1;
        }
        i = i + 1;
    }
    indices
}

/// The tube that follows `points`; `points[anchor]` is the vehicle. A point that is `None`
/// has no finite position and is left out. Nothing is drawn when fewer than two points
/// remain.
pub fn tube_mesh(points: &[Option<Point>], anchor: usize, cam: &Point) -> (mesh: Option<TubeMesh>)
    requires
        all_local(points@),
        cam.is_local(),
        points.len() <= MAX_POINTS,
    ensures
        mesh is Some <==> distinct(points@).len() >= 2,
        mesh matches Some(m) ==> m.rings@ == tube_rings(points@, anchor as int, *cam)
            && m.indices@ == stitch(m.rings.len() as int) && m.valid(),
{
    let (pts, anchor_pt) = drawn_points(points, anchor);
    proof {
        lemma_distinct_shape(points@);
    }
    if pts.len() < 2 {
        return None;
    }
    let mut vehicle: i128 = 0;
    let mut j: usize = 0;
    while j < anchor_pt
        invariant
            pts_local(pts@),
            anchor_pt < pts.len() <= MAX_POINTS,
            j <= anchor_pt,
            vehicle == arc_at(pts@, j as int),
            0 <= vehicle <= j * 0x4000_0000_0000_0000,
        decreases anchor_pt - j,
    {
        let length: u64 = pts[j].distance(&pts[j + 1]);
        vehicle = vehicle + length as i128;
        j = j + 1;
    }
    let mut rings: Vec<TubeRing> = Vec::new();
    rings.push(make_ring(pts[0], 0, vehicle, cam));
    let mut run: i128 = 0;
    let mut i: usize = 1;
    assert(rings@ =~= rings_upto(pts@, vehicle as int, *cam, 0));
    while i < pts.len()
        invariant
            pts_local(pts@),
            pts_apart(pts@),
            cam.is_local(),
            2 <= pts.len() <= MAX_POINTS,
            1 <= i <= pts.len(),
            0 <= vehicle <= MAX_POINTS * 0x4000_0000_0000_0000,
            run == arc_at(pts@, i - 1),
            0 <= run <= (i - 1) * 0x4000_0000_0000_0000,
            rings@ == rings_upto(pts@, vehicle as int, *cam, i - 1),
            rings_valid(rings@),
        decreases pts.len() - i,
    {
        let length: u64 = pts[i - 1].distance(&pts[i]);
        proof {
            assert(pts@[i - 1].dist2(pts@[i as int]) > DUPLICATE_SQUARED);
            lemma_dist_at_least(pts@[i - 1], pts@[i as int], 1_000);
        }
        let next: i128 = run + length as i128;
        push_segment(&mut rings, &pts[i - 1], &pts[i], run, next, vehicle, cam);
        run = next;
        i = i + 1;
    }
    proof {
        lemma_ring_count(pts@, vehicle as int, *cam, pts@.len() - 1);
    }
    let indices: Vec<u32> = stitch_rings(rings.len());
    Some(TubeMesh { rings, indices })
}

/// What holds of a ring of the line and its successor.
pub open spec fn consecutive(a: int, b: int, anchor_arc: int) -> bool {
    &&& a < b
    &&& window_end(b, anchor_arc) - window_start(a, anchor_arc) <= FADE_STEP + FADE_MARGIN
}

/// The path lengths behind `prev` on a segment that ends at `a1`.
spec fn chain(s: int, hi: int, a0: int, a1: int) -> Seq<int> {
    samples(s, hi, a0, a1).push(a1)
}

proof fn lemma_chain(s: int, hi: int, a0: int, a1: int, prev: int, vehicle: int)
    requires
        a0 + FADE_MARGIN <= a1,
        hi == window_end(a1, vehicle),
        prev == a0 || a0 + FADE_MARGIN < prev < a1 - FADE_MARGIN,
        prev <= s,
        prev < s || s <= a0 + FADE_MARGIN,
        s - window_start(prev, vehicle) <= FADE_STEP,
        s > a0 + FADE_MARGIN || s == window_start(prev, vehicle),
    ensures
        consecutive(prev, chain(s, hi, a0, a1)[0], vehicle),
        forall|k: int|
            0 <= k < samples(s, hi, a0, a1).len() ==> a0 < #[trigger] samples(s, hi, a0, a1)[k] < a1,
        forall|k: int|
            0 <= k < chain(s, hi, a0, a1).len() - 1 ==> consecutive(
                #[trigger] chain(s, hi, a0, a1)[k],
                chain(s, hi, a0, a1)[k + 1],
                vehicle,
            ),
    decreases
            if s >= hi {
                0
            } else {
                hi - s
            },
{
    let list = samples(s, hi, a0, a1);
    let rest = samples(s + FADE_STEP, hi, a0, a1);
    if s < hi {
        if a0 + FADE_MARGIN < s < a1 - FADE_MARGIN {
            lemma_chain(s + FADE_STEP, hi, a0, a1, s, vehicle);
            assert(chain(s, hi, a0, a1) =~= seq![s] + chain(s + FADE_STEP, hi, a0, a1));
            assert forall|k: int| 0 <= k < chain(s, hi, a0, a1).len() - 1 implies consecutive(
                #[trigger] chain(s, hi, a0, a1)[k],
                chain(s, hi, a0, a1)[k + 1],
                vehicle,
            ) by {
                if k > 0 {
                    assert(consecutive(
                        chain(s + FADE_STEP, hi, a0, a1)[k - 1],
                        chain(s + FADE_STEP, hi, a0, a1)[k],
                        vehicle,
                    ));
                }
            }
            assert forall|k: int| 0 <= k < list.len() implies a0 < #[trigger] list[k] < a1 by {
                if k > 0 {
                    assert(list[k] == rest[k - 1]);
                }
            }
        } else if s <= a0 + FADE_MARGIN {
            lemma_chain(s + FADE_STEP, hi, a0, a1, prev, vehicle);
        } else {
            assert(s + FADE_STEP >= hi);
            assert(rest.len() == 0);
        }
    }
}

/// What the rings up to a point are like.
pub open spec fn rings_wf(
    rings: Seq<TubeRing>,
    anchor_arc: int,
    first: Point,
    last: Point,
    end: int,
) -> bool {
    &&& rings.len() > 0
    &&& rings[0].centre == first && rings[0].arc == 0
    &&& rings.last().centre == last && rings.last().arc == end
    &&& forall|k: int|
        0 <= k < rings.len() ==> 0 <= #[trigger] rings[k].arc <= end && rings[k].alpha == fade_alpha(
            gap(rings[k].arc as int, anchor_arc),
        )
    &&& forall|k: int|
        0 <= k < rings.len() - 1 ==> consecutive(
            #[trigger] rings[k].arc as int,
            rings[k + 1].arc as int,
            anchor_arc,
        )
}

proof fn lemma_fade_range(d: int)
    ensures
        0 <= fade_alpha(d) <= OPAQUE,
        d <= FADE_HOLD ==> fade_alpha(d) == 0,
        d >= FADE_WINDOW ==> fade_alpha(d) == OPAQUE,
{
    let u = if d <= FADE_HOLD {
        0
    } else if d >= FADE_WINDOW {
        FADE_RAMP as int
    } else {
        d - FADE_HOLD
    };
    lemma_ramp_bounds(u);
    let w = u * u * (150_000_000 - 2 * u);
    assert(3 * FADE_RAMP - 2 * u == 150_000_000 - 2 * u);
    assert(0 <= (w * 1_000_000) / 125_000_000_000_000_000_000_000 <= 1_000_000);
    if u == 0 {
        assert(w == 0) by (nonlinear_arith)
            requires
                w == u * u * (150_000_000 - 2 * u),
                u == 0,
        ;
    }
    if u == 50_000_000 {
        assert(w == 125_000_000_000_000_000_000_000) by (nonlinear_arith)
            requires
                w == u * u * (150_000_000 - 2 * u),
                u == 50_000_000,
        ;
    }
}

proof fn lemma_rings_wf(pts: Seq<Point>, anchor_arc: int, cam: Point, i: int)
    requires
        pts_local(pts),
        pts_apart(pts),
        pts.len() <= MAX_POINTS,
        0 <= i < pts.len(),
    ensures
        rings_wf(
            rings_upto(pts, anchor_arc, cam, i),
            anchor_arc,
            pts[0],
            pts[i],
            arc_at(pts, i),
        ),
    decreases i,
{
    let rings = rings_upto(pts, anchor_arc, cam, i);
    lemma_arc_bound(pts, i);
    if i == 0 {
        lemma_fade_range(gap(0, anchor_arc));
    } else {
        lemma_rings_wf(pts, anchor_arc, cam, i - 1);
        let before = rings_upto(pts, anchor_arc, cam, i - 1);
        let (p, q) = (pts[i - 1], pts[i]);
        let (a0, a1) = (arc_at(pts, i - 1), arc_at(pts, i));
        assert(p.dist2(q) > DUPLICATE_SQUARED);
        lemma_dist_at_least(p, q, 1_000);
        lemma_arc_bound(pts, i - 1);
        let (s, hi) = (window_start(a0, anchor_arc), window_end(a1, anchor_arc));
        lemma_chain(s, hi, a0, a1, a0, anchor_arc);
        let list = samples(s, hi, a0, a1);
        let links = chain(s, hi, a0, a1);
        let seg = segment_rings(p, q, a0, a1, anchor_arc, cam);
        assert(seg.len() == links.len());
        assert forall|k: int| 0 <= k < seg.len() implies (#[trigger] seg[k]).arc == links[k] && a0
            < links[k] <= a1 && seg[k].alpha == fade_alpha(gap(links[k], anchor_arc)) by {
            lemma_fade_range(gap(links[k], anchor_arc));
            if k < list.len() {
                assert(list[k] == links[k]);
            }
        }
        assert(rings =~= before + seg);
        assert(rings.last() == seg.last());
        assert forall|k: int| 0 <= k < rings.len() implies 0 <= #[trigger] rings[k].arc <= a1
            && rings[k].alpha == fade_alpha(gap(rings[k].arc as int, anchor_arc)) by {
            if k < before.len() {
                assert(rings[k] == before[k]);
            } else {
                assert(rings[k] == seg[k - before.len()]);
            }
        }
        assert forall|k: int| 0 <= k < rings.len() - 1 implies consecutive(
            #[trigger] rings[k].arc as int,
            rings[k + 1].arc as int,
            anchor_arc,
        ) by {
            if k < before.len() - 1 {
                assert(rings[k] == before[k] && rings[k + 1] == before[k + 1]);
                assert(consecutive(before[k].arc as int, before[k + 1].arc as int, anchor_arc));
            } else if k == before.len() - 1 {
                assert(rings[k] == before.last());
                assert(rings[k + 1] == seg[0]);
            } else {
                let m = k - before.len();
                assert(rings[k] == seg[m] && rings[k + 1] == seg[m + 1]);
                assert(consecutive(links[m], links[m + 1], anchor_arc));
            }
        }
    }
}

/// The line starts at the first drawn point and ends at the last; its rings advance
/// strictly along the path; and inside the window around the vehicle no two neighbours
/// are further apart than one sampling step and a margin, however coarse the path is.
pub proof fn law_window_is_finely_sampled(points: Seq<Option<Point>>, anchor: int, cam: Point)
    requires
        all_local(points),
        points.len() <= MAX_POINTS,
        distinct(points).len() >= 2,
    ensures
        rings_wf(
            tube_rings(points, anchor, cam),
            anchor_arc(points, anchor),
            distinct(points)[0],
            distinct(points).last(),
            arc_at(distinct(points), distinct(points).len() - 1),
        ),
{
    lemma_distinct_shape(points);
    lemma_rings_wf(distinct(points), anchor_arc(points, anchor), cam, distinct(points).len() - 1);
}

/// Nothing is drawn over the vehicle: every ring within the clear core is fully
/// transparent, and every ring outside the window is drawn at full strength.
pub proof fn law_clear_core(points: Seq<Option<Point>>, anchor: int, cam: Point, k: int)
    requires
        all_local(points),
        points.len() <= MAX_POINTS,
        distinct(points).len() >= 2,
        0 <= k < tube_rings(points, anchor, cam).len(),
    ensures
        ({
            let ring = tube_rings(points, anchor, cam)[k];
            let d = gap(ring.arc as int, anchor_arc(points, anchor));
            &&& d <= FADE_HOLD ==> ring.alpha == 0
            &&& d >= FADE_WINDOW ==> ring.alpha == OPAQUE
        }),
{
    law_window_is_finely_sampled(points, anchor, cam);
    let ring = tube_rings(points, anchor, cam)[k];
    lemma_fade_range(gap(ring.arc as int, anchor_arc(points, anchor)));
    assert(0 <= ring.arc);
}

/// The line only gets stronger away from the vehicle.
pub proof fn law_fade_is_monotone(d: int, e: int)
    requires
        d <= e,
    ensures
        fade_alpha(d) <= fade_alpha(e),
{
    lemma_fade_range(d);
    lemma_fade_range(e);
    if FADE_HOLD < d && e < FADE_WINDOW {
        let u = d - FADE_HOLD;
        let v = e - FADE_HOLD;
        lemma_ramp_bounds(u);
        assert(u * u * (150_000_000 - 2 * u) <= v * v * (150_000_000 - 2 * v)) by (nonlinear_arith)
            requires
                0 <= u <= v <= 50_000_000,
        {
            // The difference is (v - u) (R' (u + v) - 2 (u^2 + uv + v^2)) with R' = 3R.
            assert(v * v * (150_000_000 - 2 * v) - u * u * (150_000_000 - 2 * u) == (v - u) * (
            150_000_000 * (u + v) - 2 * (u * u + u * v + v * v)));
            assert(u * u <= 50_000_000 * u);
            assert(u * v <= 50_000_000 * u);
            assert(v * v <= 50_000_000 * v);
        }
        let (x, y) = (u * u * (150_000_000 - 2 * u), v * v * (150_000_000 - 2 * v));
        assert(3 * FADE_RAMP - 2 * u == 150_000_000 - 2 * u);
        assert(3 * FADE_RAMP - 2 * v == 150_000_000 - 2 * v);
        assert((x * 1_000_000) / 125_000_000_000_000_000_000_000 <= (y * 1_000_000)
            / 125_000_000_000_000_000_000_000);
    }
}

proof fn lemma_ring_quads_shape(i: int, s: int)
    requires
        0 <= i < MAX_RINGS,
        0 <= s <= TUBE_SIDES,
    ensures
        ring_quads(i, s).len() == 6 * s,
        forall|k: int|
            0 <= k < 6 * s ==> i * TUBE_SIDES <= #[trigger] ring_quads(i, s)[k] < (i + 2)
                * TUBE_SIDES,
    decreases s,
{
    if s > 0 {
        lemma_ring_quads_shape(i, s - 1);
        let here = ring_quads(i, s);
        assert forall|k: int| 0 <= k < 6 * s implies i * TUBE_SIDES <= #[trigger] here[k] < (i + 2)
            * TUBE_SIDES by {
            if k < 6 * (s - 1) {
                assert(here[k] == ring_quads(i, s - 1)[k]);
            } else {
                assert(here[k] == quad(i, s - 1)[k - 6 * (s - 1)]);
            }
        }
    }
}

proof fn lemma_ring_quads_at(i: int, count: int, s: int, j: int)
    requires
        0 <= s < count,
        0 <= j < 6,
    ensures
        ring_quads(i, count).len() == 6 * count,
        ring_quads(i, count)[6 * s + j] == quad(i, s)[j],
    decreases count,
{
    if s < count - 1 {
        lemma_ring_quads_at(i, count - 1, s, j);
    } else if count > 1 {
        lemma_ring_quads_at(i, count - 1, 0, 0);
    } else {
        assert(ring_quads(i, 0).len() == 0);
    }
}

/// The triangles between corners `s` and `s + 1` of rings `i` and `i + 1` stand in their
/// place.
pub proof fn lemma_stitch_at(n: int, i: int, s: int, j: int)
    requires
        0 <= i < n - 1,
        0 <= s < 5,
        0 <= j < 6,
    ensures
        stitch(n).len() == (n - 1) * 30,
        stitch(n)[30 * i + 6 * s + j] == quad(i, s)[j],
    decreases n,
{
    lemma_ring_quads_at(n - 2, 5, s, j);
    if i < n - 2 {
        lemma_stitch_at(n - 1, i, s, j);
    } else if n > 2 {
        lemma_stitch_at(n - 1, 0, 0, 0);
    } else {
        assert(stitch(1).len() == 0);
    }
}

/// A tube of `n` rings has two triangles for each side between neighbouring rings, and
/// every corner of them is a vertex of some ring.
pub proof fn law_triangles_join_rings(n: int)
    requires
        1 <= n <= MAX_RINGS,
    ensures
        stitch(n).len() == (n - 1) * 6 * TUBE_SIDES,
        forall|k: int| 0 <= k < stitch(n).len() ==> #[trigger] stitch(n)[k] < n * TUBE_SIDES,
    decreases n,
{
    if n > 1 {
        law_triangles_join_rings(n - 1);
        lemma_ring_quads_shape(n - 2, TUBE_SIDES as int);
        let all = stitch(n);
        assert forall|k: int| 0 <= k < all.len() implies #[trigger] all[k] < n * TUBE_SIDES by {
            let m = stitch(n - 1).len();
            if k < m {
                assert(all[k] == stitch(n - 1)[k]);
            } else {
                assert(all[k] == ring_quads(n - 2, TUBE_SIDES as int)[k - m]);
            }
        }
    }
}

// ---- The recorded and the predicted path --------------------------------------------

/// Integrator steps for each sample of the burn preview.
pub const PREVIEW_SAMPLE_EVERY: u64 = 5;

/// Length of an integrator step of the burn preview, in milliseconds.
pub const PREVIEW_STEP_MS: u64 = 100;

/// Integrator steps of the coast preview, and how many of them make a sample.
pub const COAST_STEPS: usize = 960;

pub const COAST_SAMPLE_EVERY: usize = 4;

/// More recorded points than this are thinned.
pub const MAX_TRAIL: usize = 4096;

/// The least distance between two recorded points.
pub const TRAIL_MIN_STEP: i64 = 2_000_000;

/// What the preview says of the rest of the burn.
#[derive(Clone, Copy, Debug, PartialEq, Eq, Structural)]
pub struct PlanReadout {
    /// Whether the burn ends in an escape.
    pub escapes: bool,
    /// Time until the engines are cut, in milliseconds.
    pub eta_ms: u128,
    /// Altitude at the cutoff.
    pub cutoff_alt: i64,
}

/// Where the assembly has been, and where it is going, in the planet's frame.
pub struct FlightPath {
    /// Where it has been in this launch, oldest first.
    pub trail: Vec<Point>,
    /// Where the plan takes it from here.
    pub future: Vec<Point>,
    /// The readout of the burn; none while coasting.
    pub plan: Option<PlanReadout>,
}

impl Default for FlightPath {
    fn default() -> (path: Self)
        ensures
            path.trail@.len() == 0,
            path.future@.len() == 0,
            path.plan is None,
    {
        FlightPath { trail: Vec::new(), future: Vec::new(), plan: None }
    }
}

/// The least distance to the last recorded point that makes a new one: a hundredth of the
/// altitude, but never less than [`TRAIL_MIN_STEP`].
pub open spec fn trail_step(altitude: i64) -> int {
    if altitude / 100 <= TRAIL_MIN_STEP {
        TRAIL_MIN_STEP as int
    } else {
        altitude as int / 100
    }
}

/// Every other point, from the first.
pub open spec fn halved(trail: Seq<Point>) -> Seq<Point> {
    Seq::new(((trail.len() + 1) / 2) as nat, |i: int| trail[2 * i])
}

/// The trail after the assembly was at `pos`.
pub open spec fn recorded(trail: Seq<Point>, pos: Point, altitude: i64) -> Seq<Point> {
    if trail.len() > 0 && trail.last().dist2(pos) < trail_step(altitude) * trail_step(altitude) {
        trail
    } else if trail.len() < MAX_TRAIL {
        trail.push(pos)
    } else {
        halved(trail.push(pos))
    }
}

/// Keeps every other point.
fn thin(trail: &Vec<Point>) -> (kept: Vec<Point>)
    requires
        trail.len() < usize::MAX,
    ensures
        kept@ == halved(trail@),
{
    let mut kept: Vec<Point> = Vec::new();
    let mut i: usize = 0;
    let mut keep: bool = false;
    while i < trail.len()
        invariant
            i <= trail.len() < usize::MAX,
            keep == (i % 2 == 1),
            kept@.len() == (i + 1) / 2,
            forall|k: int| 0 <= k < kept@.len() ==> #[trigger] kept@[k] == trail@[2 * k],
        decreases trail.len() - i,
    {
        keep = !keep;
        if keep {
            kept.push(trail[i]);
        }
        i = i + 1;
    }
    assert(kept@ =~= halved(trail@));
    kept
}

/// Records `pos` if it lies a step off the last recorded point.
fn record(trail: &mut Vec<Point>, pos: Point, altitude: i64)
    requires
        pos.is_local(),
        old(trail).len() > 0 ==> old(trail)@.last().is_local(),
        old(trail).len() <= MAX_TRAIL,
    ensures
        final(trail)@ == recorded(old(trail)@, pos, altitude),
{
    let hundredth: i64 = if altitude >= 0 { altitude / 100 } else { 0 };
    let step: u64 = if hundredth <= TRAIL_MIN_STEP {
        TRAIL_MIN_STEP as u64
    } else {
        hundredth as u64
    };
    assert(step == trail_step(altitude));
    assert(step * step <= 0x8000_0000_0000_0000 * 0x8000_0000_0000_0000) by (nonlinear_arith)
        requires
            0 <= step <= 0x8000_0000_0000_0000,
    ;
    if trail.len() > 0 {
        let moved: u128 = trail[trail.len() - 1].distance_squared(&pos);
        if moved < (step as u128) * (step as u128) {
            return;
        }
    }
    trail.push(pos);
    if trail.len() > MAX_TRAIL {
        *trail = thin(trail);
    }
}

/// What a frame needs to be forecast, and from where: the place and the speed of the vehicle
/// on this frame.
#[derive(Clone, Copy, Debug, PartialEq, Eq, Structural)]
pub enum Forecast {
    /// Nothing is flown.
    Nothing,
    /// A burn under the flown pitch program; `build` says that the program is not the one
    /// at hand.
    Burn { build: bool, from: Point, velocity: Point },
    /// A coast with the engines off.
    Coast { from: Point, velocity: Point },
}

/// Takes in a frame: records the trail, and says what has to be forecast from here. Without
/// a launch the path is cleared, so that the next one starts fresh.
pub fn update_flight_path(
    path: &mut FlightPath,
    flown: &mut Option<u64>,
    snap: &Option<AutopilotSnapshot>,
    altitude: i64,
) -> (forecast: Forecast)
    requires
        snap matches Some(s) ==> s.true_pos.is_local(),
        old(path).trail@.len() <= MAX_TRAIL,
        pts_local(old(path).trail@),
    ensures
        final(path).trail@ == (match snap {
            Some(s) => recorded(old(path).trail@, s.true_pos, altitude),
            None => Seq::empty(),
        }),
        final(path).future@ == (if snap is Some {
            old(path).future@
        } else {
            Seq::empty()
        }),
        final(path).plan == (if snap is Some {
            old(path).plan
        } else {
            None
        }),
        *final(flown) == (match snap {
            Some(s) => if s.throttle > 0 {
                Some(s.seed)
            } else {
                *old(flown)
            },
            None => None,
        }),
        forecast == (match snap {
            Some(s) => if s.throttle > 0 {
                Forecast::Burn {
                    build: *old(flown) != Some(s.seed),
                    from: s.true_pos,
                    velocity: s.true_vel,
                }
            } else {
                Forecast::Coast { from: s.true_pos, velocity: s.true_vel }
            },
            None => Forecast::Nothing,
        }),
        final(path).trail@.len() <= MAX_TRAIL,
        pts_local(final(path).trail@),
{
    let s: AutopilotSnapshot = match snap {
        Some(s) => *s,
        None => {
            if path.trail.len() > 0 || path.future.len() > 0 || path.plan.is_some() {
                *path = FlightPath::default();
            }
            *flown = None;
            assert(path.trail@ =~= Seq::empty());
            assert(path.future@ =~= Seq::empty());
            return Forecast::Nothing;
        },
    };
    proof {
        lemma_recorded(path.trail@, s.true_pos, altitude);
    }
    record(&mut path.trail, s.true_pos, altitude);
    if s.throttle == 0 {
        return Forecast::Coast { from: s.true_pos, velocity: s.true_vel };
    }
    let build: bool = match *flown {
        Some(seed) => seed != s.seed,
        None => true,
    };
    *flown = Some(s.seed);
    Forecast::Burn { build, from: s.true_pos, velocity: s.true_vel }
}

proof fn lemma_recorded(trail: Seq<Point>, pos: Point, altitude: i64)
    requires
        trail.len() <= MAX_TRAIL,
        pts_local(trail),
        pos.is_local(),
    ensures
        recorded(trail, pos, altitude).len() <= MAX_TRAIL,
        pts_local(recorded(trail, pos, altitude)),
{
    let after = recorded(trail, pos, altitude);
    assert forall|i: int| 0 <= i < after.len() implies (#[trigger] after[i]).is_local() by {
        let grown = trail.push(pos);
        if after.len() > trail.len() || after == trail {
            if i < trail.len() {
                assert(trail[i].is_local());
            }
        } else {
            assert(after[i] == grown[2 * i]);
            if 2 * i < trail.len() {
                assert(trail[2 * i].is_local());
            }
        }
    }
}

/// Takes in the forecast of a burn: its path, whether it ends in an escape, and the
/// altitude of the path's end.
pub fn accept_burn(path: &mut FlightPath, preview: Vec<Point>, escaped: bool, end_altitude: i64)
    ensures
        final(path).trail@ == old(path).trail@,
        final(path).future@ == preview@,
        final(path).plan == Some(
            (PlanReadout {
                escapes: escaped,
                eta_ms: if preview@.len() == 0 {
                    0
                } else {
                    ((preview@.len() - 1) * PREVIEW_SAMPLE_EVERY * PREVIEW_STEP_MS) as u128
                },
                cutoff_alt: if preview@.len() == 0 {
                    0
                } else {
                    end_altitude
                },
            }),
        ),
{
    let n: usize = preview.len();
    let eta_ms: u128 = if n == 0 {
        0
    } else {
        (n - 1) as u128 * PREVIEW_SAMPLE_EVERY as u128 * PREVIEW_STEP_MS as u128
    };
    let cutoff_alt: i64 = if n == 0 { 0 } else { end_altitude };
    path.plan = Some(PlanReadout { escapes: escaped, eta_ms, cutoff_alt });
    path.future = preview;
}

/// Takes in the forecast of a coast.
pub fn accept_coast(path: &mut FlightPath, coast: Vec<Point>)
    ensures
        final(path).trail@ == old(path).trail@,
        final(path).future@ == coast@,
        final(path).plan is None,
{
    path.future = coast;
    path.plan = None;
}

/// The shown samples of a coast, up to integrator step `n`: the start, every
/// [`COAST_SAMPLE_EVERY`]th step, and the first step below the ground, which ends it.
pub open spec fn coast_samples(states: Seq<Point>, grounded: Seq<bool>, n: int) -> Seq<Point>
    decreases n,
{
    if n <= 0 {
        seq![states[0]]
    } else if exists|k: int| 1 <= k < n && #[trigger] grounded[k] {
        coast_samples(states, grounded, n - 1)
    } else if grounded[n] || n % (COAST_SAMPLE_EVERY as int) == 0 {
        coast_samples(states, grounded, n - 1).push(states[n])
    } else {
        coast_samples(states, grounded, n - 1)
    }
}

/// The path that is shown of an integrated coast: `states[k]` is the position after `k`
/// steps, `grounded[k]` whether it lies below the ground.
pub fn coast_path(states: &[Point], grounded: &[bool]) -> (out: Vec<Point>)
    requires
        states@.len() == COAST_STEPS + 1,
        grounded@.len() == COAST_STEPS + 1,
    ensures
        out@ == coast_samples(states@, grounded@, COAST_STEPS as int),
{
    let mut out: Vec<Point> = Vec::new();
    out.push(states[0]);
    let mut step: usize = 1;
    assert(out@ =~= coast_samples(states@, grounded@, 0));
    while step <= COAST_STEPS
        invariant
            1 <= step <= COAST_STEPS + 1,
            states@.len() == COAST_STEPS + 1,
            grounded@.len() == COAST_STEPS + 1,
            forall|k: int| 1 <= k < step ==> !#[trigger] grounded@[k],
            out@ == coast_samples(states@, grounded@, step - 1),
        decreases COAST_STEPS + 1 - step,
    {
        if grounded[step] {
            out.push(states[step]);
            proof {
                assert(out@ =~= coast_samples(states@, grounded@, step as int));
                lemma_coast_ends(states@, grounded@, step as int, COAST_STEPS as int);
            }
            return out;
        }
        if step % COAST_SAMPLE_EVERY == 0 {
            out.push(states[step]);
        }
        assert(out@ =~= coast_samples(states@, grounded@, step as int));
        step = step + 1;
    }
    out
}

/// Nothing is shown behind the impact.
proof fn lemma_coast_ends(states: Seq<Point>, grounded: Seq<bool>, hit: int, n: int)
    requires
        1 <= hit <= n,
        grounded[hit],
    ensures
        coast_samples(states, grounded, n) == coast_samples(states, grounded, hit),
    decreases n,
{
    if n > hit {
        lemma_coast_ends(states, grounded, hit, n - 1);
        assert(exists|k: int| 1 <= k < n && #[trigger] grounded[k]);
    }
}

/// The whole line in the room's frame: the trail, the vehicle itself, and the plan behind
/// its first point, which is the vehicle again.
pub open spec fn line(
    trail: Seq<Point>,
    live: Option<Point>,
    future: Seq<Point>,
    offset: Point,
) -> Seq<Option<Point>> {
    let behind = trail.map_values(|p: Point| Some(p.seen_from(offset)));
    let here = match live {
        Some(p) => seq![Some(p.seen_from(offset))],
        None => Seq::empty(),
    };
    let ahead = if future.len() == 0 {
        Seq::empty()
    } else {
        future.skip(1).map_values(|p: Point| Some(p.seen_from(offset)))
    };
    behind + here + ahead
}

/// Where the vehicle stands on the line, or the line's end where there is no vehicle.
pub open spec fn line_anchor(trail: Seq<Point>, line_len: int) -> int {
    if trail.len() < line_len {
        trail.len() as int
    } else if line_len == 0 {
        0
    } else {
        line_len - 1
    }
}

/// Whether every position is one of the planet's frame.
pub open spec fn pts_world(pts: Seq<Point>) -> bool {
    forall|i: int| 0 <= i < pts.len() ==> (#[trigger] pts[i]).is_world()
}

fn push_relative(line: &mut Vec<Option<Point>>, pts: &Vec<Point>, from: usize, offset: &Point)
    requires
        from <= pts.len(),
        pts_world(pts@),
        offset.is_world(),
    ensures
        final(line)@ == old(line)@ + pts@.skip(from as int).map_values(
            |p: Point| Some(p.seen_from(*offset)),
        ),
        all_local(old(line)@) ==> all_local(final(line)@),
{
    let ghost f = |p: Point| Some(p.seen_from(*offset));
    let mut i: usize = from;
    assert(line@ =~= old(line)@ + pts@.subrange(from as int, from as int).map_values(f));
    while i < pts.len()
        invariant
            from <= i <= pts.len(),
            pts_world(pts@),
            offset.is_world(),
            f == (|p: Point| Some(p.seen_from(*offset))),
            line@ == old(line)@ + pts@.subrange(from as int, i as int).map_values(f),
            all_local(old(line)@) ==> all_local(line@),
        decreases pts.len() - i,
    {
        let ghost before = line@;
        assert(pts@[i as int].is_world());
        line.push(Some(pts[i].relative_to(offset)));
        proof {
            assert(pts@.subrange(from as int, i + 1) =~= pts@.subrange(from as int, i as int).push(
                pts@[i as int],
            ));
            assert(line@ =~= old(line)@ + pts@.subrange(from as int, i + 1).map_values(f));
            if all_local(old(line)@) {
                assert forall|k: int| 0 <= k < line@.len() implies match #[trigger] line@[k] {
                    Some(p) => p.is_local(),
                    None => true,
                } by {
                    if k < before.len() {
                        assert(line@[k] == before[k]);
                    }
                }
            }
        }
        i = i + 1;
    }
    assert(pts@.subrange(from as int, pts.len() as int) =~= pts@.skip(from as int));
}

/// One coordinate of a vehicle `tick` nanoseconds on, no farther out than the world goes.
pub open spec fn one_tick_on(at: i64, speed: i64, tick: u64) -> int {
    let on = at + (speed * tick) / 1_000_000_000;
    if on < -WORLD_LIMIT {
        -WORLD_LIMIT
    } else if on > WORLD_LIMIT {
        WORLD_LIMIT as int
    } else {
        on
    }
}

fn tick_on(at: i64, speed: i64, tick: u64) -> (c: i64)
    ensures
        c == one_tick_on(at, speed, tick),
        -WORLD_LIMIT <= c <= WORLD_LIMIT,
{
    proof {
        lemma_product_bound(speed as int, tick as int, 0x8000_0000_0000_0000, 0xffff_ffff_ffff_ffff);
    }
    let on: i128 = at as i128 + floor_div(speed as i128 * tick as i128, 1_000_000_000);
    if on < -(WORLD_LIMIT as i128) {
        -WORLD_LIMIT
    } else if on > WORLD_LIMIT as i128 {
        WORLD_LIMIT
    } else {
        on as i64
    }
}

/// Where the vehicle is drawn: one tick of `tick` nanoseconds past its snapshot, which is
/// taken before the step that moves it.
pub fn live_position(snap: &AutopilotSnapshot, tick: u64) -> (p: Point)
    ensures
        p.x == one_tick_on(snap.true_pos.x, snap.true_vel.x, tick),
        p.y == one_tick_on(snap.true_pos.y, snap.true_vel.y, tick),
        p.z == one_tick_on(snap.true_pos.z, snap.true_vel.z, tick),
        p.is_world(),
{
    Point {
        x: tick_on(snap.true_pos.x, snap.true_vel.x, tick),
        y: tick_on(snap.true_pos.y, snap.true_vel.y, tick),
        z: tick_on(snap.true_pos.z, snap.true_vel.z, tick),
    }
}

/// The offset of the frame that the line is drawn in: that of the snapshot, or the room's
/// where there is none.
pub fn line_offset(snap: &Option<AutopilotSnapshot>, room: Option<Point>) -> (offset: Point)
    ensures
        offset == (match (snap, room) {
            (Some(s), _) => s.frame_offset,
            (None, Some(o)) => o,
            (None, None) => Point { x: 0, y: 0, z: 0 },
        }),
{
    match (snap, room) {
        (Some(s), _) => s.frame_offset,
        (None, Some(o)) => o,
        (None, None) => Point { x: 0, y: 0, z: 0 },
    }
}

/// The line to draw, and the index of the vehicle on it. `live` is where the vehicle is
/// drawn: one tick past its snapshot.
pub fn draw_flight_path(path: &FlightPath, live: Option<Point>, offset: &Point) -> (r: (
    Vec<Option<Point>>,
    usize,
))
    requires
        pts_world(path.trail@),
        pts_world(path.future@),
        live matches Some(p) ==> p.is_world(),
        offset.is_world(),
    ensures
        r.0@ == line(path.trail@, live, path.future@, *offset),
        r.1 == line_anchor(path.trail@, r.0@.len() as int),
        all_local(r.0@),
{
    let mut points: Vec<Option<Point>> = Vec::new();
    push_relative(&mut points, &path.trail, 0, offset);
    assert(path.trail@.skip(0) =~= path.trail@);
    let ghost behind = points@;
    if let Some(p) = live {
        points.push(Some(p.relative_to(offset)));
        proof {
            assert forall|k: int| 0 <= k < points@.len() implies match #[trigger] points@[k] {
                Some(p) => p.is_local(),
                None => true,
            } by {
                if k < behind.len() {
                    assert(points@[k] == behind[k]);
                }
            }
        }
    }
    if path.future.len() > 0 {
        push_relative(&mut points, &path.future, 1, offset);
    }
    assert(points@ =~= line(path.trail@, live, path.future@, *offset));
    let n: usize = points.len();
    let anchor: usize = if path.trail.len() < n {
        path.trail.len()
    } else if n == 0 {
        0
    } else {
        n - 1
    };
    (points, anchor)
}

/// The trail is never longer than its limit, starts where the launch started, and ends at
/// the newest record: thinning drops neither end.
pub proof fn law_trail_keeps_its_ends(trail: Seq<Point>, pos: Point, altitude: i64)
    requires
        0 < trail.len() <= MAX_TRAIL,
    ensures
        ({
            let after = recorded(trail, pos, altitude);
            &&& 0 < after.len() <= MAX_TRAIL
            &&& after[0] == trail[0]
            &&& after == trail || after.last() == pos
        }),
{
}

/// The trail follows the vehicle: after a frame it ends less than one step from it. A vehicle
/// that has moved a step or more off the last record is recorded, one that has moved less is
/// not. `step` is a hundredth of the altitude, or two metres where that is less.
pub proof fn law_the_trail_follows_the_vehicle(
    trail: Seq<Point>,
    pos: Point,
    altitude: i64,
    step: int,
)
    requires
        trail.len() <= MAX_TRAIL,
        step >= 2_000_000,
        100 * step >= altitude - 99,
        step == 2_000_000 || 100 * step <= altitude,
    ensures
        ({
            let after = recorded(trail, pos, altitude);
            let off = |p: Point|
                (p.x - pos.x) * (p.x - pos.x) + (p.y - pos.y) * (p.y - pos.y) + (p.z - pos.z) * (p.z
                    - pos.z);
            &&& after.len() > 0 && off(after.last()) < step * step
            &&& trail.len() == 0 ==> after == seq![pos]
            &&& trail.len() > 0 && off(trail.last()) >= step * step ==> after.last() == pos
            &&& trail.len() > 0 && off(trail.last()) >= step * step && trail.len() < MAX_TRAIL
                ==> after.len() == trail.len() + 1 && after.drop_last() == trail
            &&& trail.len() > 0 && off(trail.last()) < step * step ==> after == trail
        }),
{
    assert(step == trail_step(altitude));
    let after = recorded(trail, pos, altitude);
    assert(step * step > 0) by (nonlinear_arith)
        requires
            step >= 2_000_000,
    ;
    crate::geom::law_distance_is_by_axes(after.last(), pos);
    if trail.len() > 0 {
        crate::geom::law_distance_is_by_axes(trail.last(), pos);
    }
    if trail.len() == 0 {
        assert(after =~= seq![pos]);
    } else if after.len() == trail.len() + 1 {
        assert(after.drop_last() =~= trail);
    }
}

/// Neighbours on a trail that was never thinned lie at least two metres apart, and stay so.
pub proof fn law_records_lie_apart(trail: Seq<Point>, pos: Point, altitude: i64, i: int)
    requires
        trail.len() < MAX_TRAIL,
        forall|k: int|
            0 < k < trail.len() ==> trail[k - 1].dist2(#[trigger] trail[k]) >= 2_000_000 * 2_000_000,
        0 < i < recorded(trail, pos, altitude).len(),
    ensures
        ({
            let after = recorded(trail, pos, altitude);
            after[i - 1].dist2(after[i]) >= 2_000_000 * 2_000_000
        }),
{
    let s = trail_step(altitude);
    assert(s * s >= 2_000_000 * 2_000_000) by (nonlinear_arith)
        requires
            s >= 2_000_000,
    ;
    if i < trail.len() {
        assert(trail[i - 1].dist2(trail[i]) >= 2_000_000 * 2_000_000);
    }
}

/// A full trail is thinned evenly: of any two neighbours one is kept, the order stays, and
/// nothing comes in but the newest record.
pub proof fn law_thinning_is_even(trail: Seq<Point>, k: int)
    ensures
        2 * halved(trail).len() <= trail.len() + 1,
        2 * halved(trail).len() >= trail.len(),
        0 <= k && k + 1 < trail.len() ==> halved(trail).contains(trail[k]) || halved(trail).contains(
            trail[k + 1],
        ),
        0 <= k < halved(trail).len() ==> trail.contains(halved(trail)[k]),
        trail.len() > 0 ==> halved(trail)[0] == trail[0],
        trail.len() % 2 == 1 ==> halved(trail).last() == trail.last(),
{
    let kept = halved(trail);
    if 0 <= k && k + 1 < trail.len() {
        if k % 2 == 0 {
            assert(kept[k / 2] == trail[k]);
        } else {
            assert(kept[(k + 1) / 2] == trail[k + 1]);
        }
    }
    if 0 <= k < kept.len() {
        assert(kept[k] == trail[2 * k]);
    }
}

/// The vehicle stands on the drawn line, at the anchor that the clear core lies around.
pub proof fn law_line_passes_through_the_vehicle(path: FlightPath, live: Point, offset: Point)
    ensures
        ({
            let drawn = line(path.trail@, Some(live), path.future@, offset);
            drawn[line_anchor(path.trail@, drawn.len() as int)] == Some(live.seen_from(offset))
        }),
{
}

/// How the line is drawn.
#[derive(Clone, Copy, Debug, PartialEq, Eq, Structural)]
pub struct LineLook {
    pub base_color: Rgba,
    pub unlit: bool,
    pub blended: bool,
    pub fog_enabled: bool,
    pub culled: bool,
    pub visible: bool,
}

/// The line at first: neon yellow that no light and no haze changes, blended by the strength
/// of its rings, never left out because of where it was, and hidden.
pub fn spawn_trajectory_line() -> (look: LineLook)
    ensures
        look == (LineLook {
            base_color: Rgba { r: 950_000, g: 1_000_000, b: 50_000, a: 1_000_000 },
            unlit: true,
            blended: true,
            fog_enabled: false,
            culled: false,
            visible: false,
        }),
{
    LineLook {
        base_color: rgb(950_000, 1_000_000, 50_000),
        unlit: true,
        blended: true,
        fog_enabled: false,
        culled: false,
        visible: false,
    }
}

// ---- What the line promises ----------------------------------------------------------

/// One more point is drawn if it is the first or lies more than a millimetre off the last that
/// is drawn, and otherwise left out; one without a place is left out.
pub proof fn law_near_points_are_one(points: Seq<Option<Point>>, p: Point)
    ensures
        ({
            let (kept, next) = (distinct(points), distinct(points.push(Some(p))));
            let l = kept.last();
            let off = (l.x - p.x) * (l.x - p.x) + (l.y - p.y) * (l.y - p.y) + (l.z - p.z) * (l.z
                - p.z);
            &&& kept.len() == 0 || off > 1_000_000 ==> next == kept.push(p)
            &&& kept.len() > 0 && off <= 1_000_000 ==> next == kept
        }),
        distinct(points.push(None)) == distinct(points),
        distinct(Seq::empty()) == Seq::<Point>::empty(),
{
    assert(points.push(Some(p)).drop_last() == points);
    assert(points.push(None).drop_last() == points);
    crate::geom::law_distance_is_by_axes(distinct(points).last(), p);
}

/// The vehicle's own point on the drawn line is no more than a millimetre off the vehicle.
pub proof fn law_the_anchor_is_the_vehicle(points: Seq<Option<Point>>, anchor: int, p: Point)
    requires
        0 <= anchor < points.len(),
        points[anchor] == Some(p),
    ensures
        0 <= anchor_point(points, anchor) < distinct(points).len(),
        ({
            let q = distinct(points)[anchor_point(points, anchor)];
            (q.x - p.x) * (q.x - p.x) + (q.y - p.y) * (q.y - p.y) + (q.z - p.z) * (q.z - p.z)
                <= 1_000_000
        }),
{
    let prefix = points.take(anchor + 1);
    let before = prefix.drop_last();
    assert(prefix == before.push(Some(p)));
    law_near_points_are_one(before, p);
    lemma_distinct_prefix(points, anchor + 1);
    crate::geom::law_distance_is_by_axes(p, p);
    let q = distinct(prefix).last();
    crate::geom::law_distance_is_by_axes(q, p);
    let kept = distinct(before);
    if kept.len() > 0 {
        let l = kept.last();
        crate::geom::law_distance_is_by_axes(l, p);
    }
    let n = distinct(prefix).len();
    assert(n > 0);
    assert(distinct(points)[n - 1] == distinct(prefix)[n - 1]);
}

/// The path grows by the distance of each point from the last, from nothing.
pub proof fn law_the_path_is_as_long_as_its_steps(pts: Seq<Point>, i: int)
    requires
        0 <= i,
    ensures
        arc_at(pts, 0) == 0,
        ({
            let step = arc_at(pts, i + 1) - arc_at(pts, i);
            let (p, q) = (pts[i], pts[i + 1]);
            let off = (p.x - q.x) * (p.x - q.x) + (p.y - q.y) * (p.y - q.y) + (p.z - q.z) * (p.z
                - q.z);
            0 <= step && step * step <= off < (step + 1) * (step + 1)
        }),
{
    crate::geom::law_distance_is_by_axes(pts[i], pts[i + 1]);
}

/// Between the clear core and full strength the line comes in smoothly: `u` micrometres into the
/// ramp of fifty metres it has `3t^2 - 2t^3` of its strength, where `t` is `u` of the ramp; what
/// it has there and what it has as far before the ramp's end make up the whole.
pub proof fn law_the_line_comes_in_smoothly(u: int)
    requires
        0 <= u <= 50_000_000,
    ensures
        ({
            let (a, b) = (fade_alpha(30_000_000 + u), fade_alpha(80_000_000 - u));
            &&& 125_000_000_000_000_000_000_000 * a <= u * u * (150_000_000 - 2 * u) * 1_000_000
                < 125_000_000_000_000_000_000_000 * a + 125_000_000_000_000_000_000_000
            &&& 999_999 <= a + b <= 1_000_000
        }),
{
    let r = 50_000_000int;
    assert(FADE_RAMP * FADE_RAMP * FADE_RAMP == 125_000_000_000_000_000_000_000int)
        by (nonlinear_arith);
    let k = 125_000_000_000_000_000_000_000int;
    let w = r - u;
    let (p, q) = (u * u * (150_000_000 - 2 * u), w * w * (150_000_000 - 2 * w));
    assert(p + q == k) by (nonlinear_arith)
        requires
            p == u * u * (150_000_000 - 2 * u),
            q == w * w * (150_000_000 - 2 * w),
            w == 50_000_000 - u,
            k == 125_000_000_000_000_000_000_000,
    ;
    let (a, b) = (fade_alpha(30_000_000 + u), fade_alpha(80_000_000 - u));
    assert(a == (p * 1_000_000) / k) by {
        lemma_ramp_at(u);
    }
    assert(b == (q * 1_000_000) / k) by {
        lemma_ramp_at(w);
    }
}

proof fn lemma_ramp_at(u: int)
    requires
        0 <= u <= 50_000_000,
    ensures
        fade_alpha(30_000_000 + u) == (u * u * (150_000_000 - 2 * u) * 1_000_000)
            / 125_000_000_000_000_000_000_000,
{
    assert(FADE_RAMP * FADE_RAMP * FADE_RAMP == 125_000_000_000_000_000_000_000int)
        by (nonlinear_arith);
    let d = 30_000_000 + u;
    let v = if d <= FADE_HOLD {
        0
    } else if d >= FADE_WINDOW {
        FADE_RAMP as int
    } else {
        d - FADE_HOLD
    };
    assert(v == u);
    assert(3 * FADE_RAMP == 150_000_000);
}

/// The tube looks as wide from afar as from near: its radius is 75 hundred-thousandths of the
/// distance to the camera, but never less than 12.5 millimetres.
pub proof fn law_the_tube_is_seen_at_one_width(d: int)
    requires
        0 <= d,
    ensures
        tube_radius(d) >= 12_500,
        75 * d >= 1_250_100_000 ==> 100_000 * tube_radius(d) <= 75 * d < 100_000 * tube_radius(d)
            + 100_000,
        75 * d <= 1_250_000_000 ==> tube_radius(d) == 12_500,
{
    assert(d * LINE_RADIUS_PER_100_000 == 75 * d);
}

/// How far apart two path lengths are does not depend on their order.
pub proof fn law_a_gap_has_no_side(a: int, b: int)
    ensures
        gap(a, b) == gap(b, a),
        a <= b ==> a + gap(a, b) == b,
{
}

/// Every ring of a segment lies on it, as far from its start, axis by axis, as the ring's path
/// length says, and is as wide as its own distance to the camera asks for.
pub proof fn law_rings_lie_on_their_segment(
    p: Point,
    q: Point,
    a0: int,
    a1: int,
    vehicle: int,
    cam: Point,
    k: int,
)
    requires
        p.is_local(),
        q.is_local(),
        cam.is_local(),
        0 <= a0 < a1 < 0x4000_0000_0000_0000_0000_0000_0000_0000,
        0 <= k < segment_rings(p, q, a0, a1, vehicle, cam).len(),
    ensures
        ({
            let rings = segment_rings(p, q, a0, a1, vehicle, cam);
            let r = rings[k];
            let (n, d) = (r.arc - a0, a1 - a0);
            &&& a0 <= r.arc <= a1
            &&& r.radius as int == tube_radius(r.centre.dist(cam) as int) as u64
            &&& r.alpha as int == fade_alpha(gap(r.arc as int, vehicle)) as u32
            &&& p.x <= q.x ==> 0 <= (q.x - p.x) * n - (r.centre.x - p.x) * d < d
            &&& q.x <= p.x ==> 0 <= (p.x - q.x) * n - (p.x - r.centre.x) * d < d
            &&& p.y <= q.y ==> 0 <= (q.y - p.y) * n - (r.centre.y - p.y) * d < d
            &&& q.y <= p.y ==> 0 <= (p.y - q.y) * n - (p.y - r.centre.y) * d < d
            &&& p.z <= q.z ==> 0 <= (q.z - p.z) * n - (r.centre.z - p.z) * d < d
            &&& q.z <= p.z ==> 0 <= (p.z - q.z) * n - (p.z - r.centre.z) * d < d
            &&& rings.last().centre == q && rings.last().arc == a1
        }),
{
    let (s, hi) = (window_start(a0, vehicle), window_end(a1, vehicle));
    let list = samples(s, hi, a0, a1);
    let rings = segment_rings(p, q, a0, a1, vehicle, cam);
    let d = a1 - a0;
    if k < list.len() {
        lemma_samples_inside(s, hi, a0, a1, k);
        let n = list[k] - a0;
        crate::geom::law_part_of_the_way_lies_between(p.x as int, q.x as int, n, d);
        crate::geom::law_part_of_the_way_lies_between(p.y as int, q.y as int, n, d);
        crate::geom::law_part_of_the_way_lies_between(p.z as int, q.z as int, n, d);
        assert(rings[k] == ring_at(p.toward(q, n, d), list[k], vehicle, cam));
    } else {
        assert(rings[k] == ring_at(q, a1, vehicle, cam));
    }
}

proof fn lemma_samples_inside(s: int, hi: int, a0: int, a1: int, k: int)
    requires
        0 <= k < samples(s, hi, a0, a1).len(),
    ensures
        a0 < samples(s, hi, a0, a1)[k] < a1,
    decreases
            if s >= hi {
                0
            } else {
                hi - s
            },
{
    if s < hi {
        if a0 + FADE_MARGIN < s < a1 - FADE_MARGIN {
            if k > 0 {
                lemma_samples_inside(s + FADE_STEP, hi, a0, a1, k - 1);
            }
        } else {
            lemma_samples_inside(s + FADE_STEP, hi, a0, a1, k);
        }
    }
}

/// Each side of the tube between two rings has two triangles: the first from a corner to the
/// next around and on to the second ring, the second from there around and back. They run the
/// same way around, so that both face out.
pub proof fn law_a_side_is_two_triangles(i: int, s: int, next: int)
    requires
        0 <= i < MAX_RINGS,
        0 <= s < 5,
        next == s + 1 || s == 4 && next == 0,
        next < 5,
    ensures
        ({
            let t = quad(i, s);
            &&& t.len() == 6
            &&& t[0] == 5 * i + s
            &&& t[1] == 5 * i + next
            &&& t[2] == t[0] + 5
            &&& t[3] == t[1]
            &&& t[4] == t[1] + 5
            &&& t[5] == t[2]
        }),
{
    assert(i * TUBE_SIDES == 5 * i);
    assert((i + 1) * TUBE_SIDES == 5 * i + 5);
}

/// One more ring adds the sides between it and the ring before, and leaves the others.
pub proof fn law_a_ring_is_joined_to_the_last(n: int)
    requires
        1 <= n,
    ensures
        stitch(n + 1) == stitch(n) + ring_quads(n - 1, 5),
        stitch(1) == Seq::<u32>::empty(),
        ring_quads(n, 0) == Seq::<u32>::empty(),
        ring_quads(n, 5) == quad(n, 0) + quad(n, 1) + quad(n, 2) + quad(n, 3) + quad(n, 4),
{
    reveal_with_fuel(ring_quads, 6);
    assert(Seq::<u32>::empty() + quad(n, 0) =~= quad(n, 0));
}

/// A coast over open ground is shown at every fourth step, from its start.
pub proof fn law_a_coast_is_shown_every_fourth_step(
    states: Seq<Point>,
    grounded: Seq<bool>,
    n: int,
    k: int,
)
    requires
        0 <= n,
        forall|j: int| 1 <= j <= n ==> !#[trigger] grounded[j],
        0 <= k,
        4 * k <= n,
    ensures
        coast_samples(states, grounded, n)[k] == states[4 * k],
        4 * (coast_samples(states, grounded, n).len() - 1) <= n < 4 * coast_samples(
            states,
            grounded,
            n,
        ).len(),
    decreases n,
{
    if n > 0 {
        assert(!grounded[n]);
        let before = coast_samples(states, grounded, n - 1);
        if 4 * k <= n - 1 {
            law_a_coast_is_shown_every_fourth_step(states, grounded, n - 1, k);
        } else {
            law_a_coast_is_shown_every_fourth_step(states, grounded, n - 1, 0);
        }
    }
}

/// A coast that reaches the ground is shown to the step that does, and no further.
pub proof fn law_a_coast_ends_on_the_ground(
    states: Seq<Point>,
    grounded: Seq<bool>,
    hit: int,
    n: int,
)
    requires
        1 <= hit <= n,
        grounded[hit],
        forall|j: int| 1 <= j < hit ==> !#[trigger] grounded[j],
    ensures
        coast_samples(states, grounded, n) == coast_samples(states, grounded, hit - 1).push(
            states[hit],
        ),
    decreases n,
{
    if n > hit {
        assert(exists|k: int| 1 <= k < n && #[trigger] grounded[k]);
        law_a_coast_ends_on_the_ground(states, grounded, hit, n - 1);
    }
}

/// The vehicle is drawn where its speed takes it in a tick, axis by axis, and no farther out than
/// the world goes.
pub proof fn law_the_vehicle_is_drawn_a_tick_on(at: i64, speed: i64, tick: u64)
    ensures
        ({
            let on = one_tick_on(at, speed, tick);
            let goal = 1_000_000_000 * at + speed * tick;
            &&& -WORLD_LIMIT <= on <= WORLD_LIMIT
            &&& -1_000_000_000 * WORLD_LIMIT <= goal < 1_000_000_000 * WORLD_LIMIT ==> 1_000_000_000
                * on <= goal < 1_000_000_000 * on + 1_000_000_000
            &&& goal >= 1_000_000_000 * WORLD_LIMIT ==> on == WORLD_LIMIT
            &&& goal < -1_000_000_000 * WORLD_LIMIT ==> on == -WORLD_LIMIT
        }),
{
}

/// The line is the trail, the vehicle and then the plan, each point seen from the frame's origin;
/// the plan's first point, which is the vehicle, is not drawn again.
pub proof fn law_the_line_is_the_trail_and_the_plan(
    trail: Seq<Point>,
    live: Point,
    future: Seq<Point>,
    offset: Point,
    i: int,
    j: int,
)
    requires
        pts_world(trail),
        pts_world(future),
        offset.is_world(),
        0 <= i < trail.len(),
        1 <= j < future.len(),
    ensures
        ({
            let drawn = line(trail, Some(live), future, offset);
            &&& drawn.len() == trail.len() + future.len()
            &&& drawn[i] is Some && {
                let p = drawn[i]->0;
                p.x + offset.x == trail[i].x && p.y + offset.y == trail[i].y && p.z + offset.z
                    == trail[i].z
            }
            &&& drawn[trail.len() + j] is Some && {
                let p = drawn[trail.len() + j]->0;
                p.x + offset.x == future[j].x && p.y + offset.y == future[j].y && p.z + offset.z
                    == future[j].z
            }
        }),
        line(trail, None, Seq::empty(), offset).len() == trail.len(),
        line_anchor(trail, trail.len() as int) == trail.len() - 1,
{
    let drawn = line(trail, Some(live), future, offset);
    assert(future.skip(1)[j - 1] == future[j]);
    crate::geom::law_frames_are_undone(trail[i], offset);
    crate::geom::law_frames_are_undone(future[j], offset);
}

} // verus!
