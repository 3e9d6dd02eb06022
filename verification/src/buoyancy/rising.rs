//! A body displaces what of it is under water, and no less when the water rises.
//!
//! Where the water meets an edge is rounded to a micrometre, and a piece without any area to
//! speak of is left out. What that can come to is stated with the laws; where nothing is
//! rounded they are exact.

use super::hydro::{below, counts, crossing, law_clipping_is_all_or_nothing_off_the_waterline};
use super::hydro::{law_clipping_keeps_what_is_below, lemma_border};
use super::hydro::{sixfold_volume, submerged, submerged_border, volume_part, Triangle, HULL_LIMIT};
use super::pieces::{blur, full_part, lemma_corner, lemma_turned, meets_exactly, near};
use super::share::lemma_sunk_even;
use super::solid::{clipped, sealed};
use super::volume::{dents, law_no_less_is_under_rising_water, lemma_real_product};
use super::volume::{lemma_skin_measures, over, wet_face, wet_faces, wet_volume};
use crate::geom::{lemma_product_bound, Point};
use vstd::prelude::*;

verus! {

/// Whether a piece is too small to count towards a volume, though it would add to it.
pub open spec fn too_small(t: Triangle) -> bool {
    !counts(t) && t.area_y() != 0
}

/// Whether anything of a triangle is rounded off when it is clipped and measured.
pub open spec fn loses(t: Triangle, level: i64) -> bool {
    ||| !meets_exactly(t, level)
    ||| exists|i: int|
        0 <= i < submerged(t, level).len() && too_small(#[trigger] submerged(t, level)[i])
}

/// The most by which a triangle that lies within `reach` of the water can be off.
pub open spec fn slack(reach: int) -> int {
    16 * (reach * reach) + 6_000 * reach
}

/// How many triangles have something rounded off.
pub open spec fn losses(tris: Seq<Triangle>, level: i64) -> nat
    decreases tris.len(),
{
    if tris.len() == 0 {
        0
    } else {
        losses(tris.drop_last(), level) + if loses(tris.last(), level) {
            1nat
        } else {
            0
        }
    }
}

/// Whether the volume of the mesh can be measured, and all of it lies within `reach` of the
/// water.
pub open spec fn measured(tris: Seq<Triangle>, level: i64, reach: int) -> bool {
    &&& 0 <= reach
    &&& forall|i: int|
        0 <= i < tris.len() ==> (#[trigger] tris[i]).within(HULL_LIMIT as int) && near(
            tris[i],
            level,
            reach,
        )
}

// ---- One triangle --------------------------------------------------------------------

/// What is lost where a piece does not count.
proof fn lemma_part(t: Triangle, level: i64, reach: int)
    requires
        t.within(HULL_LIMIT as int),
        -reach <= t.a.y - level <= reach,
        -reach <= t.b.y - level <= reach,
        -reach <= t.c.y - level <= reach,
    ensures
        !too_small(t) ==> volume_part(t, level) == full_part(t, level),
        -3_000 * reach <= volume_part(t, level) - full_part(t, level) <= 3_000 * reach,
{
    let h = t.a.y + t.b.y + t.c.y - 3 * level;
    let n = t.area_y();
    assert(h * 0 == 0);
    if !counts(t) {
        let m = 2 * HULL_LIMIT;
        lemma_product_bound(t.b.y - t.a.y, t.c.z - t.a.z, m, m);
        lemma_product_bound(t.b.z - t.a.z, t.c.y - t.a.y, m, m);
        lemma_product_bound(t.b.z - t.a.z, t.c.x - t.a.x, m, m);
        lemma_product_bound(t.b.x - t.a.x, t.c.z - t.a.z, m, m);
        lemma_product_bound(t.b.x - t.a.x, t.c.y - t.a.y, m, m);
        lemma_product_bound(t.b.y - t.a.y, t.c.x - t.a.x, m, m);
        let (x, z) = (t.area_x(), t.area_z());
        let v = t.area_vector();
        assert(v.x == x && v.y == n && v.z == z);
        assert(x * x >= 0 && z * z >= 0) by (nonlinear_arith);
        assert(-1_000 <= n <= 1_000) by (nonlinear_arith)
            requires
                n * n < 1_000_000,
        ;
        lemma_product_bound(h, n, 3 * reach, 1_000);
    }
}

proof fn lemma_one_part(t: Triangle, level: i64)
    ensures
        sixfold_volume(seq![t], level) == volume_part(t, level),
{
    assert(seq![t].drop_last() =~= Seq::<Triangle>::empty());
    assert(sixfold_volume(Seq::<Triangle>::empty(), level) == 0);
}

proof fn lemma_two_parts(t: Triangle, u: Triangle, level: i64)
    ensures
        sixfold_volume(seq![t, u], level) == volume_part(t, level) + volume_part(u, level),
{
    lemma_one_part(t, level);
    assert(seq![t, u].drop_last() =~= seq![t]);
}

/// What the pieces of a triangle add, however small they are.
spec fn full_pieces(t: Triangle, level: i64) -> int {
    let s = submerged(t, level);
    if s.len() == 0 {
        0
    } else if s.len() == 1 {
        full_part(s[0], level)
    } else {
        full_part(s[0], level) + full_part(s[1], level)
    }
}

proof fn lemma_pieces(t: Triangle, level: i64, reach: int)
    requires
        t.within(HULL_LIMIT as int),
        near(t, level, reach),
        0 <= reach,
    ensures
        !loses(t, level) ==> sixfold_volume(submerged(t, level), level) == full_pieces(t, level),
        -6_000 * reach <= sixfold_volume(submerged(t, level), level) - full_pieces(t, level) <= 6_000
            * reach,
{
    let s = submerged(t, level);
    lemma_border(t, level);
    law_clipping_keeps_what_is_below(t, level);
    assert forall|i: int| 0 <= i < s.len() implies {
        let p = #[trigger] s[i];
        &&& p.within(HULL_LIMIT as int)
        &&& -reach <= p.a.y - level <= reach
        &&& -reach <= p.b.y - level <= reach
        &&& -reach <= p.c.y - level <= reach
    } by {
        let b = submerged_border(t, level);
        assert(b[0].within(HULL_LIMIT as int) && b[1].within(HULL_LIMIT as int));
        assert(b[2].within(HULL_LIMIT as int));
        if b.len() == 4 {
            assert(b[3].within(HULL_LIMIT as int));
        }
        assert(s[i].edge(0).0 == s[i].a && s[i].edge(1).0 == s[i].b && s[i].edge(2).0 == s[i].c);
    }
    if s.len() == 0 {
        assert(s =~= Seq::<Triangle>::empty());
    } else if s.len() == 1 {
        assert(s =~= seq![s[0]]);
        lemma_part(s[0], level, reach);
        lemma_one_part(s[0], level);
    } else {
        assert(s =~= seq![s[0], s[1]]);
        lemma_part(s[0], level, reach);
        lemma_part(s[1], level, reach);
        lemma_two_parts(s[0], s[1], level);
    }
}

/// The pieces of a triangle cut at its corner `a`.
proof fn lemma_cut_a(t: Triangle, level: i64, reach: int)
    requires
        t.within(HULL_LIMIT as int),
        near(t, level, reach),
        below(t.a, level) != below(t.b, level),
        below(t.b, level) == below(t.c, level),
    ensures
        ({
            let d = blur(reach, meets_exactly(t, level));
            -d <= full_pieces(t, level) as real - wet_face(t, level) <= d
        }),
{
    let (x, y) = (crossing(t.a, t.b, level), crossing(t.c, t.a, level));
    lemma_corner(t.a, t.b, t.c, level, reach, meets_exactly(t, level));
    let border = submerged_border(t, level);
    if below(t.a, level) {
        assert(border =~= seq![t.a, x, y]);
    } else {
        assert(border =~= seq![x, t.b, t.c, y]);
    }
}

/// The pieces of a triangle cut at its corner `b`.
proof fn lemma_cut_b(t: Triangle, level: i64, reach: int)
    requires
        t.within(HULL_LIMIT as int),
        near(t, level, reach),
        below(t.b, level) != below(t.c, level),
        below(t.c, level) == below(t.a, level),
    ensures
        ({
            let d = blur(reach, meets_exactly(t, level));
            -d <= full_pieces(t, level) as real - wet_face(t, level) <= d
        }),
{
    let (x, y) = (crossing(t.b, t.c, level), crossing(t.a, t.b, level));
    lemma_corner(t.b, t.c, t.a, level, reach, meets_exactly(t, level));
    lemma_turned(t, level);
    lemma_sunk_even(over(t.b, level), over(t.c, level), over(t.a, level));
    lemma_sunk_even(over(t.a, level), over(t.b, level), over(t.c, level));
    lemma_sunk_even(over(t.b, level), over(t.a, level), over(t.c, level));
    let border = submerged_border(t, level);
    if below(t.b, level) {
        assert(border =~= seq![y, t.b, x]);
        lemma_turned(Triangle { a: y, b: t.b, c: x }, level);
    } else {
        assert(border =~= seq![t.a, y, x, t.c]);
        lemma_turned(Triangle { a: x, b: t.a, c: y }, level);
        lemma_turned(Triangle { a: t.a, b: x, c: t.c }, level);
    }
}

/// The pieces of a triangle cut at its corner `c`.
proof fn lemma_cut_c(t: Triangle, level: i64, reach: int)
    requires
        t.within(HULL_LIMIT as int),
        near(t, level, reach),
        below(t.c, level) != below(t.a, level),
        below(t.a, level) == below(t.b, level),
    ensures
        ({
            let d = blur(reach, meets_exactly(t, level));
            -d <= full_pieces(t, level) as real - wet_face(t, level) <= d
        }),
{
    let (x, y) = (crossing(t.c, t.a, level), crossing(t.b, t.c, level));
    lemma_corner(t.c, t.a, t.b, level, reach, meets_exactly(t, level));
    lemma_turned(Triangle { a: t.c, b: t.a, c: t.b }, level);
    let border = submerged_border(t, level);
    if below(t.c, level) {
        assert(border =~= seq![y, t.c, x]);
        lemma_turned(Triangle { a: y, b: t.c, c: x }, level);
    } else {
        assert(border =~= seq![t.a, t.b, y, x]);
    }
}

/// A triangle adds to the volume what is under water below it, within rounding.
proof fn lemma_triangle(t: Triangle, level: i64, reach: int)
    requires
        t.within(HULL_LIMIT as int),
        near(t, level, reach),
        0 <= reach,
    ensures
        ({
            let d = if loses(t, level) { slack(reach) as real } else { 0real };
            -d <= sixfold_volume(submerged(t, level), level) as real - wet_face(t, level) <= d
        }),
{
    lemma_pieces(t, level, reach);
    lemma_real_product(reach, reach);
    let (a, b, c) = (below(t.a, level), below(t.b, level), below(t.c, level));
    if a == b && b == c {
        law_clipping_is_all_or_nothing_off_the_waterline(t, level);
        lemma_real_product(t.a.y + t.b.y + t.c.y - 3 * level, t.area_y());
        let (n, s) = (
            t.area_y() as real,
            over(t.a, level) + over(t.b, level) + over(t.c, level),
        );
        assert(s * n == n * s) by (nonlinear_arith);
        assert(n * 0real == 0real);
    } else if b == c {
        lemma_cut_a(t, level, reach);
    } else if c == a {
        lemma_cut_b(t, level, reach);
    } else {
        lemma_cut_c(t, level, reach);
    }
}

// ---- The whole mesh ------------------------------------------------------------------

proof fn lemma_volume_of_both(s: Seq<Triangle>, u: Seq<Triangle>, level: i64)
    ensures
        sixfold_volume(s + u, level) == sixfold_volume(s, level) + sixfold_volume(u, level),
    decreases u.len(),
{
    if u.len() == 0 {
        assert(s + u =~= s);
    } else {
        lemma_volume_of_both(s, u.drop_last(), level);
        assert((s + u).drop_last() =~= s + u.drop_last());
        assert((s + u).last() == u.last());
    }
}

proof fn lemma_shell(tris: Seq<Triangle>, level: i64, reach: int)
    requires
        measured(tris, level, reach),
    ensures
        ({
            let d = (losses(tris, level) * slack(reach)) as real;
            -d <= sixfold_volume(clipped(tris, level), level) as real - wet_faces(tris, level) <= d
        }),
    decreases tris.len(),
{
    if tris.len() == 0 {
        assert(0 * slack(reach) == 0);
    } else {
        let (before, t) = (tris.drop_last(), tris[tris.len() - 1]);
        assert(measured(before, level, reach)) by {
            assert forall|i: int| 0 <= i < before.len() implies (#[trigger] before[i]).within(
                HULL_LIMIT as int,
            ) && near(before[i], level, reach) by {
                assert(before[i] == tris[i]);
            }
        }
        lemma_shell(before, level, reach);
        assert(t.within(HULL_LIMIT as int) && near(t, level, reach));
        lemma_triangle(t, level, reach);
        lemma_volume_of_both(clipped(before, level), submerged(t, level), level);
        let (n, s) = (losses(before, level) as int, slack(reach));
        assert((n + 1) * s == n * s + s) by (nonlinear_arith);
        assert((n + 0) * s == n * s);
    }
}

/// The volume measured from the clipped shell of a sealed mesh, with no lid at the waterline,
/// is that of the part of its solid that is under water. It is off by no more than what is
/// rounded off the triangles, and exact where nothing is.
pub proof fn law_the_shell_measures_what_is_under_water(
    tris: Seq<Triangle>,
    o: Point,
    level: i64,
    reach: int,
)
    requires
        sealed(tris),
        measured(tris, level, reach),
    ensures
        ({
            let d = (losses(tris, level) * slack(reach)) as real;
            -d <= sixfold_volume(clipped(tris, level), level) as real - wet_volume(tris, o, level)
                <= d
        }),
{
    lemma_shell(tris, level, reach);
    lemma_skin_measures(tris, o, level);
}

/// A body displaces no less when the water rises, but for what is rounded off its triangles and
/// for dents in its mesh. Where nothing is rounded and the mesh faces away from some point, it is
/// exactly so.
pub proof fn law_rising_water_displaces_no_less(
    tris: Seq<Triangle>,
    o: Point,
    k: i64,
    l: i64,
    reach: int,
)
    requires
        k <= l,
        sealed(tris),
        measured(tris, k, reach),
        measured(tris, l, reach),
    ensures
        sixfold_volume(clipped(tris, k), k) <= sixfold_volume(clipped(tris, l), l) + losses(tris, k)
            * slack(reach) + losses(tris, l) * slack(reach) + dents(tris, o),
{
    law_the_shell_measures_what_is_under_water(tris, o, k, reach);
    law_the_shell_measures_what_is_under_water(tris, o, l, reach);
    law_no_less_is_under_rising_water(tris, o, k, l);
}

} // verus!
