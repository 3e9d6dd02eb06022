//! How the camera follows the user's gestures, and the settings and the panel what they do.

use super::panel::{base_length, directory_length, disc_at, drag_sum, dragged, info_address};
use super::panel::{orbited, panel_widgets, params_after, pinched, scene_parts, wheeled};
use super::panel::{Finger, OrbitCamera, PanelInput, Spot, Widget};
use super::panel::{LEAST_PITCH, LEAST_ZOOM, MOST_PITCH, MOST_ZOOM, YAW_LIMIT};
use super::hydro::Shape;
use super::SimParams;
use crate::geom::lemma_floor_sqrt_unique;
use vstd::prelude::*;

verus! {

// ---- The camera ----------------------------------------------------------------------

/// The gap between two spots is their distance, rounded down.
pub proof fn law_a_gap_is_a_distance(a: Spot, b: Spot, d: nat)
    requires
        d * d <= (a.x - b.x) * (a.x - b.x) + (a.y - b.y) * (a.y - b.y) < (d + 1) * (d + 1),
    ensures
        a.gap(b) == d,
        b.gap(a) == d,
{
    let (x, y) = (a.x - b.x, a.y - b.y);
    assert(x * x + y * y >= 0) by (nonlinear_arith);
    assert((b.x - a.x) * (b.x - a.x) == x * x) by (nonlinear_arith)
        requires
            x == a.x - b.x,
    ;
    assert((b.y - a.y) * (b.y - a.y) == y * y) by (nonlinear_arith)
        requires
            y == a.y - b.y,
    ;
    lemma_floor_sqrt_unique(d, (x * x + y * y) as nat);
}

/// Drags add up: one more drag carries the pointer on by as much.
pub proof fn law_drags_add_up(drags: Seq<Spot>, d: Spot)
    ensures
        drag_sum(drags.push(d)).0 - drag_sum(drags).0 == d.x,
        drag_sum(drags.push(d)).1 - drag_sum(drags).1 == d.y,
        drag_sum(Seq::empty()) == (0int, 0int),
{
    assert(drags.push(d).drop_last() == drags);
}

/// The mouse drags while its left button is down and no finger is on the screen; one finger
/// drags by how far it moved; two pinch and do not drag.
pub proof fn law_who_drags(fingers: Seq<Finger>, f: Finger, motion: Seq<Spot>, d: Spot, left: bool)
    ensures
        dragged(Seq::empty(), true, seq![d]) == (d.x as int, d.y as int),
        dragged(Seq::empty(), false, motion) == (0int, 0int),
        dragged(seq![f], left, motion) == (f.now.x - f.before.x, f.now.y - f.before.y),
        fingers.len() >= 2 ==> dragged(fingers, left, motion) == (0int, 0int),
{
    assert(seq![d].drop_last() == Seq::<Spot>::empty());
    assert(drag_sum(Seq::<Spot>::empty()) == (0int, 0int));
}

/// Dragging to the right turns the camera clockwise and dragging down raises it, five
/// microradians for every thousandth of a pixel, until a limit is reached; the distance stays.
pub proof fn law_dragging_turns_the_camera(camera: OrbitCamera, d: Spot)
    requires
        camera.in_range(),
        -YAW_LIMIT <= camera.yaw <= YAW_LIMIT,
        d.valid(),
    ensures
        ({
            let c = orbited(camera, Seq::empty(), true, seq![d], Seq::empty());
            &&& -YAW_LIMIT <= camera.yaw - 5 * d.x <= YAW_LIMIT ==> c.yaw == camera.yaw - 5 * d.x
            &&& camera.yaw - 5 * d.x > YAW_LIMIT ==> c.yaw == YAW_LIMIT
            &&& camera.yaw - 5 * d.x < -YAW_LIMIT ==> c.yaw == -YAW_LIMIT
            &&& LEAST_PITCH <= camera.pitch + 5 * d.y <= MOST_PITCH ==> c.pitch == camera.pitch + 5
                * d.y
            &&& camera.pitch + 5 * d.y > MOST_PITCH ==> c.pitch == MOST_PITCH
            &&& camera.pitch + 5 * d.y < LEAST_PITCH ==> c.pitch == LEAST_PITCH
            &&& c.distance == camera.distance
        }),
{
    law_who_drags(Seq::empty(), Finger { now: d, before: d }, seq![d], d, true);
    assert(wheeled(camera.distance as int, Seq::empty()) == camera.distance);
}

/// A frame without a gesture leaves the camera where it is.
pub proof fn law_a_camera_left_alone_stays(camera: OrbitCamera, motion: Seq<Spot>)
    requires
        camera.in_range(),
        -YAW_LIMIT <= camera.yaw <= YAW_LIMIT,
    ensures
        orbited(camera, Seq::empty(), false, motion, Seq::empty()) == camera,
{
    assert(wheeled(camera.distance as int, Seq::empty()) == camera.distance);
}

/// A notch of the wheel scales the distance by its factor, in millionths and rounded down, as far
/// as the camera goes. A factor under one brings it no farther, one over no closer.
pub proof fn law_a_notch_scales_the_distance(distance: int, factors: Seq<u32>, f: u32, q: int)
    requires
        LEAST_ZOOM <= distance <= MOST_ZOOM,
        1_000_000 * q <= wheeled(distance, factors) * f < 1_000_000 * q + 1_000_000,
    ensures
        LEAST_ZOOM <= q <= MOST_ZOOM ==> wheeled(distance, factors.push(f)) == q,
        q < LEAST_ZOOM ==> wheeled(distance, factors.push(f)) == LEAST_ZOOM,
        q > MOST_ZOOM ==> wheeled(distance, factors.push(f)) == MOST_ZOOM,
        f <= 1_000_000 ==> wheeled(distance, factors.push(f)) <= wheeled(distance, factors),
        f >= 1_000_000 ==> wheeled(distance, factors.push(f)) >= wheeled(distance, factors),
        wheeled(distance, Seq::empty()) == distance,
{
    assert(factors.push(f).drop_last() == factors);
    let w = wheeled(distance, factors);
    lemma_wheel_stays(distance, factors);
    let n = w * f;
    assert(n / 1_000_000 == q);
    assert(f <= 1_000_000 ==> n <= w * 1_000_000) by (nonlinear_arith)
        requires
            n == w * f,
            w >= 0,
    ;
    assert(f >= 1_000_000 ==> n >= w * 1_000_000) by (nonlinear_arith)
        requires
            n == w * f,
            w >= 0,
    ;
}

proof fn lemma_wheel_stays(distance: int, factors: Seq<u32>)
    requires
        LEAST_ZOOM <= distance <= MOST_ZOOM,
    ensures
        LEAST_ZOOM <= wheeled(distance, factors) <= MOST_ZOOM,
    decreases factors.len(),
{
    if factors.len() > 0 {
        lemma_wheel_stays(distance, factors.drop_last());
    }
}

/// Two fingers that spread bring the camera closer, and farther where they close: the distance
/// goes with the gap between them before to that of now, rounded down, as far as the camera goes.
/// Fingers within a pixel of each other do not pinch.
pub proof fn law_spreading_fingers_come_closer(distance: int, a: Finger, b: Finger, q: int)
    requires
        LEAST_ZOOM <= distance <= MOST_ZOOM,
    ensures
        ({
            let (now, before) = (a.now.gap(b.now) as int, a.before.gap(b.before) as int);
            let r = pinched(distance, a, b);
            &&& now <= 1_000 || before <= 1_000 ==> r == distance
            &&& now > 1_000 && before > 1_000 && now * q <= distance * before < now * q + now ==> {
                &&& LEAST_ZOOM <= q <= MOST_ZOOM ==> r == q
                &&& q < LEAST_ZOOM ==> r == LEAST_ZOOM
                &&& q > MOST_ZOOM ==> r == MOST_ZOOM
            }
            &&& now >= before ==> r <= distance
            &&& now <= before ==> r >= distance
        }),
{
    let (now, before) = (a.now.gap(b.now) as int, a.before.gap(b.before) as int);
    if now > 1_000 && before > 1_000 {
        let n = distance * before;
        let d = n / now;
        vstd::arithmetic::div_mod::lemma_fundamental_div_mod(n, now);
        vstd::arithmetic::div_mod::lemma_mod_bound(n, now);
        if now * q <= n < now * q + now {
            vstd::arithmetic::div_mod::lemma_fundamental_div_mod_converse(n, now, q, n - now * q);
        }
        if now >= before {
            assert(d <= distance) by (nonlinear_arith)
                requires
                    now * d <= distance * before,
                    before <= now,
                    now > 0,
                    distance >= 0,
            ;
        }
        if now <= before {
            assert(d >= distance) by (nonlinear_arith)
                requires
                    distance * before < now * d + now,
                    before >= now,
                    now > 0,
                    distance >= 0,
            ;
        }
    }
}

/// Two fingers pinch the camera and turn it no way; the wheel takes it on from there.
pub proof fn law_two_fingers_pinch(
    camera: OrbitCamera,
    fingers: Seq<Finger>,
    left: bool,
    motion: Seq<Spot>,
)
    requires
        camera.in_range(),
        -YAW_LIMIT <= camera.yaw <= YAW_LIMIT,
        fingers.len() >= 2,
    ensures
        ({
            let c = orbited(camera, fingers, left, motion, Seq::empty());
            &&& c.yaw == camera.yaw
            &&& c.pitch == camera.pitch
            &&& c.distance == pinched(camera.distance as int, fingers[0], fingers[1])
        }),
{
    let d = pinched(camera.distance as int, fingers[0], fingers[1]);
    assert(LEAST_ZOOM <= d <= MOST_ZOOM);
    assert(wheeled(d, Seq::empty()) == d);
}

// ---- The links -----------------------------------------------------------------------

/// The page with the explanation lies in the directory of the page that runs the simulator,
/// whatever that one's own name is.
pub proof fn law_info_lies_beside_the_page(directory: Seq<char>, name: Seq<char>)
    requires
        directory.len() > 0,
        directory.last() == '/',
        forall|k: int| 0 <= k < directory.len() ==> directory[k] != '?' && directory[k] != '#',
        forall|k: int|
            0 <= k < name.len() ==> name[k] != '/' && name[k] != '?' && name[k] != '#',
    ensures
        info_address(directory + name) == directory + "buoyancy/info.html"@,
{
    let href = directory + name;
    lemma_base_of_plain(href, 0);
    lemma_directory(href, directory.len() as int, href.len() as int);
    assert(href.take(directory.len() as int) =~= directory);
}

proof fn lemma_base_of_plain(href: Seq<char>, from: int)
    requires
        0 <= from <= href.len(),
        forall|k: int| 0 <= k < href.len() ==> href[k] != '?' && href[k] != '#',
    ensures
        base_length(href, from) == href.len(),
    decreases href.len() - from,
{
    if from < href.len() {
        lemma_base_of_plain(href, from + 1);
    }
}

proof fn lemma_directory(href: Seq<char>, d: int, k: int)
    requires
        0 < d <= k <= href.len(),
        href[d - 1] == '/',
        forall|j: int| d <= j < href.len() ==> href[j] != '/',
    ensures
        directory_length(href, href.len() as int, k) == d,
    decreases k,
{
    if k > d {
        assert(href[k - 1] != '/');
        lemma_directory(href, d, k - 1);
    }
}

// ---- The settings --------------------------------------------------------------------

/// The sliders above the sections always move their own settings, within their ends.
pub proof fn law_the_top_sliders_always_move(p: SimParams, i: PanelInput)
    ensures
        ({
            let q = params_after(p, i);
            &&& i.density matches Some(v) ==> {
                &&& 100_000 <= v <= 12_000_000 ==> q.density == v
                &&& v < 100_000 ==> q.density == 100_000
                &&& v > 12_000_000 ==> q.density == 12_000_000
            }
            &&& i.density is None ==> q.density == p.density
            &&& i.start_angle matches Some(v) ==> {
                &&& v <= 90_000_000 ==> q.start_angle == v
                &&& v > 90_000_000 ==> q.start_angle == 90_000_000
            }
            &&& i.start_angle is None ==> q.start_angle == p.start_angle
        }),
{
}

/// The sliders of the body's measures move their own settings within their ends, and only while
/// their section is unfolded.
pub proof fn law_the_measures_move_when_unfolded(p: SimParams, i: PanelInput)
    ensures
        ({
            let q = params_after(p, i);
            &&& !i.cylinder_open ==> q.shape == p.shape && q.wall == p.wall
            &&& i.cylinder_open ==> {
                &&& i.r_top matches Some(v) ==> {
                    &&& 200_000 <= v <= 2_500_000 ==> q.shape.r_top == v
                    &&& v < 200_000 ==> q.shape.r_top == 200_000
                    &&& v > 2_500_000 ==> q.shape.r_top == 2_500_000
                }
                &&& i.r_bottom matches Some(v) ==> {
                    &&& 200_000 <= v <= 2_500_000 ==> q.shape.r_bottom == v
                    &&& v < 200_000 ==> q.shape.r_bottom == 200_000
                    &&& v > 2_500_000 ==> q.shape.r_bottom == 2_500_000
                }
                &&& i.length matches Some(v) ==> {
                    &&& 500_000 <= v <= 6_400_000 ==> q.shape.length == v
                    &&& v < 500_000 ==> q.shape.length == 500_000
                    &&& v > 6_400_000 ==> q.shape.length == 6_400_000
                }
                &&& i.wall matches Some(v) ==> {
                    &&& 1_000 <= v <= 250_000 ==> q.wall == v
                    &&& v < 1_000 ==> q.wall == 1_000
                    &&& v > 250_000 ==> q.wall == 250_000
                }
            }
            &&& i.r_top is None ==> q.shape.r_top == p.shape.r_top
            &&& i.r_bottom is None ==> q.shape.r_bottom == p.shape.r_bottom
            &&& i.length is None ==> q.shape.length == p.shape.length
            &&& i.wall is None ==> q.wall == p.wall
        }),
{
}

/// While the section of the method is folded up, nothing in it changes.
pub proof fn law_a_folded_method_stays(p: SimParams, i: PanelInput)
    requires
        !i.method_open,
    ensures
        ({
            let q = params_after(p, i);
            &&& q.method == p.method && q.voxel_res == p.voxel_res && q.hull_res == p.hull_res
            &&& q.drag_on == p.drag_on && q.drag_coeff == p.drag_coeff
            &&& q.slamming_on == p.slamming_on && q.gamma_max == p.gamma_max
            &&& q.pressure_drag_on == p.pressure_drag_on
            &&& q.pressure_drag_coeff == p.pressure_drag_coeff
        }),
{
}

/// While it is unfolded, the method is the one chosen, and the quality of that one can be set: of
/// the grid for the voxel grid, of the hull for the others.
pub proof fn law_the_chosen_method_has_its_quality(p: SimParams, i: PanelInput)
    requires
        i.method_open,
    ensures
        ({
            let q = params_after(p, i);
            &&& i.method matches Some(m) ==> q.method == m
            &&& i.method is None ==> q.method == p.method
            &&& q.method is VoxelGrid ==> {
                &&& q.hull_res == p.hull_res
                &&& i.voxel_res matches Some(v) ==> {
                    &&& 4 <= v <= 32 ==> q.voxel_res == v
                    &&& v < 4 ==> q.voxel_res == 4
                    &&& v > 32 ==> q.voxel_res == 32
                }
            }
            &&& q.method !is VoxelGrid ==> {
                &&& q.voxel_res == p.voxel_res
                &&& i.hull_res matches Some(v) ==> {
                    &&& 8 <= v <= 64 ==> q.hull_res == v
                    &&& v < 8 ==> q.hull_res == 8
                    &&& v > 64 ==> q.hull_res == 64
                }
            }
            &&& i.voxel_res is None ==> q.voxel_res == p.voxel_res
            &&& i.hull_res is None ==> q.hull_res == p.hull_res
        }),
{
}

/// While it is unfolded, drag is switched with any method, and its coefficient moves while it is
/// on.
pub proof fn law_drag_is_switched_with_any_method(p: SimParams, i: PanelInput)
    requires
        i.method_open,
    ensures
        ({
            let q = params_after(p, i);
            &&& i.drag_on matches Some(on) ==> q.drag_on == on
            &&& i.drag_on is None ==> q.drag_on == p.drag_on
            &&& q.drag_on ==> (i.drag_coeff matches Some(v) ==> {
                &&& v <= 3_000_000 ==> q.drag_coeff == v
                &&& v > 3_000_000 ==> q.drag_coeff == 3_000_000
            })
            &&& !q.drag_on || i.drag_coeff is None ==> q.drag_coeff == p.drag_coeff
        }),
{
}

/// With surface pressure selected, slamming and pressure drag are switched each by its own box,
/// and the coefficient of each moves while it is on.
pub proof fn law_surface_pressure_has_its_models(p: SimParams, i: PanelInput)
    requires
        i.method_open,
        params_after(p, i).method is SurfacePressure,
    ensures
        ({
            let q = params_after(p, i);
            &&& i.slamming_on matches Some(on) ==> q.slamming_on == on
            &&& i.slamming_on is None ==> q.slamming_on == p.slamming_on
            &&& q.slamming_on ==> (i.gamma_max matches Some(v) ==> {
                &&& 5_000_000 <= v <= 100_000_000 ==> q.gamma_max == v
                &&& v < 5_000_000 ==> q.gamma_max == 5_000_000
                &&& v > 100_000_000 ==> q.gamma_max == 100_000_000
            })
            &&& !q.slamming_on || i.gamma_max is None ==> q.gamma_max == p.gamma_max
            &&& i.pressure_drag_on matches Some(on) ==> q.pressure_drag_on == on
            &&& i.pressure_drag_on is None ==> q.pressure_drag_on == p.pressure_drag_on
            &&& q.pressure_drag_on ==> (i.pressure_drag_coeff matches Some(v) ==> {
                &&& v <= 3_000_000 ==> q.pressure_drag_coeff == v
                &&& v > 3_000_000 ==> q.pressure_drag_coeff == 3_000_000
            })
            &&& !q.pressure_drag_on || i.pressure_drag_coeff is None ==> q.pressure_drag_coeff
                == p.pressure_drag_coeff
        }),
{
}

// ---- The panel -----------------------------------------------------------------------

/// What the panel shows: the sliders of a section while it is unfolded, the quality of the method
/// that is selected, and the coefficient of a model that is on; a model that needs faces is greyed
/// out without surface pressure. The rest is always there.
pub proof fn law_what_the_panel_shows(after: SimParams, i: PanelInput, w: Widget)
    ensures
        panel_widgets(after, i).contains(w) <==> (match w {
            Widget::Reset => true,
            Widget::WaterDensity => true,
            Widget::Density => true,
            Widget::StartAngle => true,
            Widget::CylinderHeader => true,
            Widget::RadiusTop => i.cylinder_open,
            Widget::RadiusBottom => i.cylinder_open,
            Widget::Length => i.cylinder_open,
            Widget::Wall => i.cylinder_open,
            Widget::MethodHeader => true,
            Widget::MethodChoice => i.method_open,
            Widget::GridDensity => i.method_open && after.method is VoxelGrid,
            Widget::HullResolution => i.method_open && after.method !is VoxelGrid,
            Widget::Drag => i.method_open,
            Widget::DragCoeff => i.method_open && after.drag_on,
            Widget::Slamming { enabled } => i.method_open && (enabled
                == after.method is SurfacePressure),
            Widget::GammaMax => i.method_open && after.method is SurfacePressure
                && after.slamming_on,
            Widget::PressureDrag { enabled } => i.method_open && (enabled
                == after.method is SurfacePressure),
            Widget::PressureDragCoeff => i.method_open && after.method is SurfacePressure
                && after.pressure_drag_on,
        }),
{
    let top = seq![Widget::Reset, Widget::WaterDensity, Widget::Density, Widget::StartAngle];
    let head = seq![Widget::CylinderHeader];
    let cylinder = super::panel::cylinder_widgets(i);
    let next = seq![Widget::MethodHeader];
    let method = super::panel::method_widgets(after, i);
    lemma_joined(top, head, w);
    lemma_joined(top + head, cylinder, w);
    lemma_joined(top + head + cylinder, next, w);
    lemma_joined(top + head + cylinder + next, method, w);
    lemma_four(Widget::Reset, Widget::WaterDensity, Widget::Density, Widget::StartAngle, w);
    lemma_one(Widget::CylinderHeader, w);
    lemma_four(Widget::RadiusTop, Widget::RadiusBottom, Widget::Length, Widget::Wall, w);
    lemma_one(Widget::MethodHeader, w);
    lemma_method(after, i, w);
}

proof fn lemma_method(after: SimParams, i: PanelInput, w: Widget)
    ensures
        super::panel::method_widgets(after, i).contains(w) <==> i.method_open && ({
            let faces = after.method is SurfacePressure;
            ||| w == Widget::MethodChoice
            ||| w == Widget::GridDensity && after.method is VoxelGrid
            ||| w == Widget::HullResolution && after.method !is VoxelGrid
            ||| w == Widget::Drag
            ||| w == Widget::DragCoeff && after.drag_on
            ||| w == (Widget::Slamming { enabled: faces })
            ||| w == Widget::GammaMax && faces && after.slamming_on
            ||| w == (Widget::PressureDrag { enabled: faces })
            ||| w == Widget::PressureDragCoeff && faces && after.pressure_drag_on
        }),
{
    let faces = after.method is SurfacePressure;
    if i.method_open {
        let quality = if after.method is VoxelGrid {
            Widget::GridDensity
        } else {
            Widget::HullResolution
        };
        let a = seq![Widget::MethodChoice, quality, Widget::Drag];
        let b = super::panel::shown_if(after.drag_on, Widget::DragCoeff);
        let c = seq![Widget::Slamming { enabled: faces }];
        let d = super::panel::shown_if(faces && after.slamming_on, Widget::GammaMax);
        let e = seq![Widget::PressureDrag { enabled: faces }];
        let f = super::panel::shown_if(
            faces && after.pressure_drag_on,
            Widget::PressureDragCoeff,
        );
        lemma_joined(a, b, w);
        lemma_joined(a + b, c, w);
        lemma_joined(a + b + c, d, w);
        lemma_joined(a + b + c + d, e, w);
        lemma_joined(a + b + c + d + e, f, w);
        lemma_three(Widget::MethodChoice, quality, Widget::Drag, w);
        lemma_one(Widget::DragCoeff, w);
        lemma_one(Widget::Slamming { enabled: faces }, w);
        lemma_one(Widget::GammaMax, w);
        lemma_one(Widget::PressureDrag { enabled: faces }, w);
        lemma_one(Widget::PressureDragCoeff, w);
    }
}

proof fn lemma_joined(a: Seq<Widget>, b: Seq<Widget>, w: Widget)
    ensures
        (a + b).contains(w) <==> a.contains(w) || b.contains(w),
{
    let s = a + b;
    if a.contains(w) {
        let k = choose|k: int| 0 <= k < a.len() && a[k] == w;
        assert(s[k] == w);
    }
    if b.contains(w) {
        let k = choose|k: int| 0 <= k < b.len() && b[k] == w;
        assert(s[a.len() + k] == w);
    }
    if s.contains(w) {
        let k = choose|k: int| 0 <= k < s.len() && s[k] == w;
        if k < a.len() {
            assert(a[k] == w);
        } else {
            assert(b[k - a.len()] == w);
        }
    }
}

proof fn lemma_one(a: Widget, w: Widget)
    ensures
        seq![a].contains(w) <==> w == a,
{
    assert(seq![a][0] == a);
}

proof fn lemma_three(a: Widget, b: Widget, c: Widget, w: Widget)
    ensures
        seq![a, b, c].contains(w) <==> w == a || w == b || w == c,
{
    let s = seq![a, b, c];
    assert(s[0] == a && s[1] == b && s[2] == c);
}

proof fn lemma_four(a: Widget, b: Widget, c: Widget, d: Widget, w: Widget)
    ensures
        seq![a, b, c, d].contains(w) <==> w == a || w == b || w == c || w == d,
{
    let s = seq![a, b, c, d];
    assert(s[0] == a && s[1] == b && s[2] == c && s[3] == d);
}

/// The widgets stand in their order: the reset on top, the body's section after the sliders, and
/// the method's section last.
pub proof fn law_the_panel_is_in_order(after: SimParams, i: PanelInput)
    ensures
        ({
            let s = panel_widgets(after, i);
            let n: int = if i.cylinder_open {
                9
            } else {
                5
            };
            &&& s.len() > n
            &&& s[0] == Widget::Reset && s[1] == Widget::WaterDensity && s[2] == Widget::Density
            &&& s[3] == Widget::StartAngle && s[4] == Widget::CylinderHeader
            &&& i.cylinder_open ==> s[5] == Widget::RadiusTop && s[6] == Widget::RadiusBottom
                && s[7] == Widget::Length && s[8] == Widget::Wall
            &&& s[n] == Widget::MethodHeader
            &&& !i.method_open ==> s.len() == n + 1
            &&& i.method_open ==> s[n + 1] == Widget::MethodChoice && s[n + 3] == Widget::Drag
        }),
{
}

/// The scene starts with the wall and both ends shown, and the wall of the cavity hidden; each end
/// disc is as wide as its end.
pub proof fn law_the_scene_shows_the_body(shape: Shape, k: int)
    requires
        0 <= k < 4,
    ensures
        scene_parts(shape).len() == 4,
        scene_parts(shape)[k].hidden <==> scene_parts(shape)[k].part is InnerSide,
        scene_parts(shape)[k].disc is Some <==> scene_parts(shape)[k].part is Cap,
        disc_at(shape, true).radius == shape.r_top,
        disc_at(shape, false).radius == shape.r_bottom,
{
}

} // verus!
