//! What every tick of a flight does to the bodies: where the planet pulls them from, and
//! which way up each character feels; and how far the camera backs off.

use super::{in_flight, room_launched, LaunchLocal, NetLaunch};
use crate::geom::{scaled, Point};
use crate::lists::{lemma_pick_contains, lemma_pick_none, lemma_pick_step, pick};
use vstd::prelude::*;

verus! {

// ---- Gravity -------------------------------------------------------------------------

/// A point of the room in the planet's frame.
pub open spec fn in_planet_frame(p: Point, offset: Point) -> Point {
    Point {
        x: (p.x + offset.x) as i64,
        y: (p.y + offset.y) as i64,
        z: (p.z + offset.z) as i64,
    }
}

/// Where the planet's pull is to be taken for each predicted body: where the body really
/// is, though the room's frame keeps it near the origin.
pub fn apply_mp_gravity(positions: &[Point], offset: &Point) -> (at: Vec<Point>)
    requires
        offset.is_local(),
        forall|i: int| 0 <= i < positions@.len() ==> (#[trigger] positions@[i]).is_local(),
    ensures
        at@ == positions@.map_values(|p: Point| in_planet_frame(p, *offset)),
{
    let mut at: Vec<Point> = Vec::new();
    let mut i: usize = 0;
    while i < positions.len()
        invariant
            i <= positions.len(),
            offset.is_local(),
            forall|k: int| 0 <= k < positions@.len() ==> (#[trigger] positions@[k]).is_local(),
            at@.len() == i,
            forall|k: int|
                0 <= k < i ==> #[trigger] at@[k] == in_planet_frame(positions@[k], *offset),
        decreases positions.len() - i,
    {
        let p: Point = positions[i];
        assert(positions@[i as int].is_local());
        at.push(Point { x: p.x + offset.x, y: p.y + offset.y, z: p.z + offset.z });
        i = i + 1;
    }
    assert(at@ =~= positions@.map_values(|p: Point| in_planet_frame(p, *offset)));
    at
}

// ---- Which way is up -----------------------------------------------------------------

/// A body that may be a character: our own, or a player's whom we simulate. Without a
/// collider it is a copy that only records what the server said.
#[derive(Clone, Copy, Debug, PartialEq, Eq, Structural)]
pub struct Avatar {
    pub entity: u64,
    pub is_character: bool,
    pub is_net_player: bool,
    /// The middle of the lower end of its collider, as high as the body's own frame puts it.
    pub foot: Option<i64>,
}

/// What a character's sense of up is fed: it turns about its foot towards `target`.
#[derive(Clone, Copy, Debug, PartialEq, Eq, Structural)]
pub struct FeltSample {
    pub entity: u64,
    pub foot: i64,
    pub target: Point,
}

/// Whether this client simulates the avatar.
pub open spec fn feels(a: Avatar) -> bool {
    (a.is_character || a.is_net_player) && a.foot is Some
}

/// The way up that is felt: that of the flight, or the world's.
pub open spec fn felt_target(apparent: Option<Point>) -> Point {
    match apparent {
        Some(up) => up,
        None => Point { x: 0, y: 1_000_000, z: 0 },
    }
}

/// One sample for every character that this client simulates, those of other players
/// included.
pub fn sample_felt_up(apparent: Option<Point>, avatars: &[Avatar]) -> (samples: Vec<FeltSample>)
    ensures
        samples@ == pick(
            avatars@,
            |a: Avatar| feels(a),
            |a: Avatar|
                FeltSample { entity: a.entity, foot: a.foot->0, target: felt_target(apparent) },
        ),
{
    let target: Point = match apparent {
        Some(up) => up,
        None => Point { x: 0, y: 1_000_000, z: 0 },
    };
    let ghost p = |a: Avatar| feels(a);
    let ghost f = |a: Avatar|
        FeltSample { entity: a.entity, foot: a.foot->0, target: felt_target(apparent) };
    let mut samples: Vec<FeltSample> = Vec::new();
    let mut i: usize = 0;
    proof {
        lemma_pick_none(avatars@, p, f);
    }
    while i < avatars.len()
        invariant
            i <= avatars.len(),
            target == felt_target(apparent),
            p == (|a: Avatar| feels(a)),
            f == (|a: Avatar|
                FeltSample { entity: a.entity, foot: a.foot->0, target: felt_target(apparent) }),
            samples@ == pick(avatars@.take(i as int), p, f),
        decreases avatars.len() - i,
    {
        proof {
            lemma_pick_step(avatars@, i as int, p, f);
        }
        let a: Avatar = avatars[i];
        if a.is_character || a.is_net_player {
            if let Some(foot) = a.foot {
                samples.push(FeltSample { entity: a.entity, foot, target });
            }
        }
        i = i + 1;
    }
    assert(avatars@.take(i as int) =~= avatars@);
    samples
}

// ---- The camera ----------------------------------------------------------------------

/// How far the camera backs off in flight, in millionths of its usual distance.
pub const LAUNCH_CAMERA_ZOOM: u32 = 2_000_000;

/// How far the camera is to back off.
pub open spec fn zoom_goal(flying: bool) -> int {
    if flying {
        LAUNCH_CAMERA_ZOOM as int
    } else {
        1_000_000
    }
}

/// The distance after a frame that closes `alpha` millionths of the gap.
pub open spec fn zoom_after(zoom: int, goal: int, alpha: int) -> int {
    zoom + scaled(goal - zoom, alpha, 1_000_000)
}

/// Moves the camera towards the distance that the flight asks for. `alpha` is how much of
/// the gap the frame closes, in millionths.
pub fn ease_launch_zoom(
    zoom: &mut u32,
    local: &LaunchLocal,
    multiplayer: bool,
    orb: &Option<NetLaunch>,
    alpha: u32,
)
    requires
        1_000_000 <= *old(zoom) <= LAUNCH_CAMERA_ZOOM,
        alpha <= 1_000_000,
    ensures
        *final(zoom) == zoom_after(
            *old(zoom) as int,
            zoom_goal(in_flight(*local, multiplayer, *orb)),
            alpha as int,
        ),
        1_000_000 <= *final(zoom) <= LAUNCH_CAMERA_ZOOM,
{
    let goal: u32 = if room_launched(local, multiplayer, orb) {
        LAUNCH_CAMERA_ZOOM
    } else {
        1_000_000
    };
    let now: u32 = *zoom;
    let gap: u64 = if goal >= now {
        (goal - now) as u64
    } else {
        (now - goal) as u64
    };
    assert(0 <= gap * alpha <= gap * 1_000_000) by (nonlinear_arith)
        requires
            0 <= gap,
            0 <= alpha <= 1_000_000,
    ;
    assert((gap * alpha) / 1_000_000 <= gap) by (nonlinear_arith)
        requires
            gap * alpha <= gap * 1_000_000,
    ;
    let step: u32 = ((gap * alpha as u64) / 1_000_000) as u32;
    *zoom = if goal >= now {
        now + step
    } else {
        now - step
    };
}

/// The law of the zoom: a frame never moves the camera past the distance that it is eased
/// to, nor away from it.
pub proof fn law_zoom_does_not_overshoot(zoom: int, goal: int, alpha: int)
    requires
        0 <= alpha <= 1_000_000,
    ensures
        zoom <= goal ==> zoom <= zoom_after(zoom, goal, alpha) <= goal,
        zoom >= goal ==> goal <= zoom_after(zoom, goal, alpha) <= zoom,
{
    let gap = if goal >= zoom {
        goal - zoom
    } else {
        zoom - goal
    };
    assert(0 <= (gap * alpha) / 1_000_000 <= gap) by (nonlinear_arith)
        requires
            0 <= gap,
            0 <= alpha <= 1_000_000,
    ;
}

/// The law of up: another player whom this client simulates feels the same up as its own
/// character does.
pub proof fn law_riders_feel_one_up(apparent: Option<Point>, avatars: Seq<Avatar>, i: int)
    requires
        0 <= i < avatars.len(),
        feels(avatars[i]),
    ensures
        pick(
            avatars,
            |a: Avatar| feels(a),
            |a: Avatar|
                FeltSample { entity: a.entity, foot: a.foot->0, target: felt_target(apparent) },
        ).contains(
            FeltSample {
                entity: avatars[i].entity,
                foot: avatars[i].foot->0,
                target: felt_target(apparent),
            },
        ),
{
    let p = |a: Avatar| feels(a);
    let f = |a: Avatar|
        FeltSample { entity: a.entity, foot: a.foot->0, target: felt_target(apparent) };
    lemma_pick_contains(avatars, p, f, f(avatars[i]));
    assert(p(avatars[i]));
}

/// A body in the planet's frame is as far from where it is in the room's as the room's frame
/// is off the planet, axis by axis.
pub proof fn law_the_planet_sees_the_body_where_it_is(p: Point, offset: Point)
    requires
        p.is_local(),
        offset.is_local(),
    ensures
        in_planet_frame(p, offset).x - p.x == offset.x,
        in_planet_frame(p, offset).y - p.y == offset.y,
        in_planet_frame(p, offset).z - p.z == offset.z,
{
}

/// Our own character and every player whom we simulate feel which way is up; a copy without a
/// collider does not, and neither does anything else.
pub proof fn law_who_feels_up(a: Avatar)
    ensures
        a.is_character && a.foot is Some ==> feels(a),
        a.is_net_player && a.foot is Some ==> feels(a),
        a.foot is None ==> !feels(a),
        !a.is_character && !a.is_net_player ==> !feels(a),
{
}

/// In flight up is felt where the flight has it, and otherwise straight above.
pub proof fn law_up_is_felt(up: Point)
    ensures
        felt_target(Some(up)) == up,
        felt_target(None).x == 0,
        felt_target(None).y == 1_000_000,
        felt_target(None).z == 0,
{
}

/// In flight the camera is to stand twice as far off. A frame closes its share of the gap, to
/// the millionth: none of it or all of it where that is the share.
pub proof fn law_the_zoom_closes_its_share(zoom: int, goal: int, alpha: int)
    requires
        0 <= alpha <= 1_000_000,
    ensures
        zoom_goal(true) == 2 * zoom_goal(false),
        zoom_goal(false) == 1_000_000,
        goal >= zoom ==> 1_000_000 * (zoom_after(zoom, goal, alpha) - zoom) <= (goal - zoom) * alpha
            < 1_000_000 * (zoom_after(zoom, goal, alpha) - zoom) + 1_000_000,
        goal <= zoom ==> 1_000_000 * (zoom - zoom_after(zoom, goal, alpha)) <= (zoom - goal) * alpha
            < 1_000_000 * (zoom - zoom_after(zoom, goal, alpha)) + 1_000_000,
        alpha == 1_000_000 ==> zoom_after(zoom, goal, alpha) == goal,
        alpha == 0 ==> zoom_after(zoom, goal, alpha) == zoom,
{
    crate::geom::law_scaling_rounds_towards_zero(goal - zoom, alpha, 1_000_000);
    let d = goal - zoom;
    assert((zoom - goal) * alpha == -(d * alpha)) by (nonlinear_arith)
        requires
            d == goal - zoom,
    ;
    assert(alpha == 0 ==> d * alpha == 0) by (nonlinear_arith);
}

} // verus!
