//! Flying the rocket: who has the stick, and where the chase camera is.

use crate::client::launch::thrust::{clamp_stick, clamp_to_full, AutopilotSnapshot};
use crate::client::launch::{LaunchLocal, NetLaunch, SpPhase, Stick};
use crate::geom::Point;
use vstd::prelude::*;

verus! {

/// The view turns no further than this to either side, in microradians (2^59: more turns
/// than a finger can make).
pub const LOOK_TURN_LIMIT: i64 = 0x0800_0000_0000_0000;

/// How far the view can be pitched off the flight axis, in microradians.
pub const MAX_LOOK_PITCH: i64 = 1_050_000;

/// A look input shorter than this is let go, in millionths.
pub const LOOK_IDLE: i64 = 1_000;

/// Distance of the chase camera in radii of the craft, and its bounds.
pub const CHASE_DISTANCE: u64 = 5;

pub const MIN_CHASE_DISTANCE: u64 = 32_000_000;

pub const MAX_CHASE_DISTANCE: u64 = 90_000_000;

/// Whether this client flies its room's assembly.
#[derive(Clone, Copy, Debug, PartialEq, Eq, Structural)]
pub struct AtTheControls(pub bool);

impl Default for AtTheControls {
    fn default() -> (c: Self)
        ensures
            !c.0,
    {
        AtTheControls(false)
    }
}

/// The pilot's deflection in this frame: right and up.
#[derive(Clone, Copy, Debug, PartialEq, Eq, Structural)]
pub struct PilotStick {
    pub value: Stick,
}

impl Default for PilotStick {
    fn default() -> (s: Self)
        ensures
            s == (PilotStick { value: Stick { x: 0, y: 0 } }),
    {
        PilotStick { value: Stick { x: 0, y: 0 } }
    }
}

/// How far the pilot looks off dead astern, in microradians.
#[derive(Clone, Copy, Debug, PartialEq, Eq, Structural)]
pub struct PilotLook {
    pub yaw: i64,
    pub pitch: i64,
}

/// Whether the stick is live.
pub fn piloting(controls: &AtTheControls) -> (live: bool)
    ensures
        live == controls.0,
{
    controls.0
}

/// Whether this client flies. A pilot of zero is nobody: such a flight flies itself.
pub open spec fn flies(
    multiplayer: bool,
    orb: Option<NetLaunch>,
    my_id: Option<u64>,
    local: LaunchLocal,
) -> bool {
    if multiplayer {
        orb is Some && my_id is Some && orb->0.launched && orb->0.pilot != 0 && orb->0.pilot
            == my_id->0
    } else {
        local.sp == SpPhase::Launched
    }
}

/// Takes the stick or hands it back. Handing it back centres it.
pub fn take_the_controls(
    controls: &mut AtTheControls,
    multiplayer: bool,
    orb: &Option<NetLaunch>,
    my_id: Option<u64>,
    local: &LaunchLocal,
    stick: &mut PilotStick,
)
    ensures
        final(controls).0 == flies(multiplayer, *orb, my_id, *local),
        *final(stick) == (if old(controls).0 && !flies(multiplayer, *orb, my_id, *local) {
            PilotStick { value: Stick { x: 0, y: 0 } }
        } else {
            *old(stick)
        }),
{
    let flying: bool = if multiplayer {
        match (orb, my_id) {
            (Some(state), Some(me)) => state.launched && state.pilot != 0 && state.pilot == me,
            _ => false,
        }
    } else {
        local.sp_launched()
    };
    if controls.0 && !flying {
        *stick = PilotStick::default();
    }
    controls.0 = flying;
}

/// Reads the stick from the movement intent `x` and `z`. Without the controls it is
/// centred, so that a bystander never reaches the flight.
pub fn read_pilot_stick(controls: &AtTheControls, movement: Option<Stick>, stick: &mut PilotStick)
    ensures
        final(stick).value == (if controls.0 && movement is Some {
            clamp_stick(movement->0)
        } else {
            Stick { x: 0, y: 0 }
        }),
{
    stick.value = match movement {
        Some(m) if controls.0 => clamp_to_full(m),
        _ => Stick { x: 0, y: 0 },
    };
}

/// `v` within `limit` of zero.
pub open spec fn limited(v: int, limit: int) -> int {
    if v < -limit {
        -limit
    } else if v > limit {
        limit
    } else {
        v
    }
}

/// What drifts away of `v` when `alpha` millionths of it do, rounded towards zero.
pub open spec fn drifted(v: i64, alpha: u32) -> int {
    v - crate::geom::scaled(v as int, alpha as int, 1_000_000)
}

/// The look after a frame: swung while the input is held, drifting back once it is let go,
/// and straight without the controls.
pub open spec fn look_after(
    look: PilotLook,
    flying: bool,
    input: Point,
    swing: Point,
    alpha: u32,
) -> PilotLook {
    if !flying {
        PilotLook { yaw: 0, pitch: 0 }
    } else if input.len2() > LOOK_IDLE * LOOK_IDLE {
        PilotLook {
            yaw: limited(look.yaw + swing.x, LOOK_TURN_LIMIT as int) as i64,
            pitch: limited(look.pitch + swing.y, MAX_LOOK_PITCH as int) as i64,
        }
    } else {
        PilotLook { yaw: drifted(look.yaw, alpha) as i64, pitch: drifted(look.pitch, alpha) as i64 }
    }
}

fn drift(v: i64, alpha: u32) -> (r: i64)
    requires
        alpha <= 1_000_000,
        -0x1000_0000_0000_0000 <= v <= 0x1000_0000_0000_0000,
    ensures
        r == drifted(v, alpha),
        -0x1000_0000_0000_0000 <= r <= 0x1000_0000_0000_0000,
{
    let magnitude: u64 = if v >= 0 { v as u64 } else { (-v) as u64 };
    assert(0 <= magnitude * alpha <= 0x1000_0000_0000_0000 * 1_000_000) by (nonlinear_arith)
        requires
            0 <= magnitude <= 0x1000_0000_0000_0000,
            0 <= alpha <= 1_000_000,
    ;
    assert((magnitude * alpha) / 1_000_000 <= magnitude) by (nonlinear_arith)
        requires
            0 <= magnitude,
            0 <= alpha <= 1_000_000,
    ;
    let part: i64 = ((magnitude as u128 * alpha as u128) / 1_000_000) as i64;
    if v >= 0 {
        v - part
    } else {
        v + part
    }
}

/// Swings the view with the look input, or lets it drift back. `input` is the raw look of
/// the frame, `swing` what it comes to in microradians, and `alpha` how much of the offset
/// drifts away in the frame, in millionths.
pub fn read_pilot_look(
    look: &mut PilotLook,
    controls: &AtTheControls,
    input: &Point,
    swing: &Point,
    alpha: u32,
)
    requires
        input.is_local(),
        swing.within(0x0800_0000_0000_0000),
        alpha <= 1_000_000,
        -LOOK_TURN_LIMIT <= old(look).yaw <= LOOK_TURN_LIMIT,
        -MAX_LOOK_PITCH <= old(look).pitch <= MAX_LOOK_PITCH,
    ensures
        *final(look) == look_after(*old(look), controls.0, *input, *swing, alpha),
        -MAX_LOOK_PITCH <= final(look).pitch <= MAX_LOOK_PITCH,
        -LOOK_TURN_LIMIT <= final(look).yaw <= LOOK_TURN_LIMIT,
{
    if !controls.0 {
        *look = PilotLook { yaw: 0, pitch: 0 };
        return;
    }
    assert(LOOK_IDLE * LOOK_IDLE == 1_000_000) by (nonlinear_arith);
    if input.length_squared() > 1_000_000 {
        let turned: i64 = look.yaw + swing.x;
        look.yaw = if turned < -LOOK_TURN_LIMIT {
            -LOOK_TURN_LIMIT
        } else if turned > LOOK_TURN_LIMIT {
            LOOK_TURN_LIMIT
        } else {
            turned
        };
        let wanted: i64 = look.pitch + swing.y;
        look.pitch = if wanted < -MAX_LOOK_PITCH {
            -MAX_LOOK_PITCH
        } else if wanted > MAX_LOOK_PITCH {
            MAX_LOOK_PITCH
        } else {
            wanted
        };
    } else {
        proof {
            lemma_drift_shrinks(look.pitch, alpha);
            lemma_drift_shrinks(look.yaw, alpha);
        }
        look.yaw = drift(look.yaw, alpha);
        look.pitch = drift(look.pitch, alpha);
    }
}

proof fn lemma_drift_shrinks(v: i64, alpha: u32)
    requires
        alpha <= 1_000_000,
    ensures
        v >= 0 ==> 0 <= drifted(v, alpha) <= v,
        v <= 0 ==> v <= drifted(v, alpha) <= 0,
{
    let a = if v >= 0 { v as int } else { -v };
    assert(0 <= (a * alpha) / 1_000_000 <= a) by (nonlinear_arith)
        requires
            0 <= a,
            0 <= alpha <= 1_000_000,
    ;
}

/// What happens to the camera's mount.
#[derive(Clone, Copy, Debug, PartialEq, Eq, Structural)]
pub enum Mount {
    Keep,
    /// Take the camera off the avatar, so that it can chase the craft.
    Detach,
    /// Put the camera back on the avatar, and straighten it.
    Attach,
}

/// Whether the chase view is wanted: at the controls, with something to chase.
pub open spec fn chases(controls: AtTheControls, flown: bool) -> bool {
    controls.0 && flown
}

/// What to do about the camera's mount. `has_parent` is how the camera stands now, `None`
/// where there is no camera or no player. It is read from the world each time, so a mount
/// that changed behind our back is put right.
pub fn mount_pilot_camera(controls: &AtTheControls, flown: bool, has_parent: Option<bool>) -> (mount:
    Mount)
    ensures
        mount == (match has_parent {
            None => Mount::Keep,
            Some(parented) => if parented != chases(*controls, flown) {
                Mount::Keep
            } else if parented {
                Mount::Detach
            } else {
                Mount::Attach
            },
        }),
{
    let want: bool = controls.0 && flown;
    match has_parent {
        None => Mount::Keep,
        Some(parented) => if parented != want {
            Mount::Keep
        } else if want {
            Mount::Detach
        } else {
            Mount::Attach
        },
    }
}

/// Whether the camera has a parent after `mount`.
pub open spec fn mounted(has_parent: bool, mount: Mount) -> bool {
    match mount {
        Mount::Keep => has_parent,
        Mount::Detach => false,
        Mount::Attach => true,
    }
}

/// Distance of the chase camera from a craft of this radius.
pub fn chase_distance(radius: u64) -> (d: u64)
    ensures
        d == (if radius * CHASE_DISTANCE < MIN_CHASE_DISTANCE {
            MIN_CHASE_DISTANCE as int
        } else if radius * CHASE_DISTANCE > MAX_CHASE_DISTANCE {
            MAX_CHASE_DISTANCE as int
        } else {
            radius * CHASE_DISTANCE
        }),
{
    let d: u128 = radius as u128 * 5;
    if d < MIN_CHASE_DISTANCE as u128 {
        MIN_CHASE_DISTANCE
    } else if d > MAX_CHASE_DISTANCE as u128 {
        MAX_CHASE_DISTANCE
    } else {
        d as u64
    }
}

/// Where the chased craft is drawn: its centre of mass in the room's frame, moved by as
/// much as the drawn pose of its anchor body is off the body's position on the tick.
pub open spec fn chase_target_of(snap: AutopilotSnapshot, drawn: Option<Point>) -> Point {
    let com = snap.true_pos.seen_from(snap.frame_offset);
    match (snap.anchor, drawn) {
        (Some(anchor), Some(pose)) => Point {
            x: (com.x + (pose.x - anchor.position.x)) as i64,
            y: (com.y + (pose.y - anchor.position.y)) as i64,
            z: (com.z + (pose.z - anchor.position.z)) as i64,
        },
        _ => com,
    }
}

/// Where the chased craft is drawn. `drawn` is the pose at which the anchor body is drawn.
pub fn chase_target(snap: &AutopilotSnapshot, drawn: Option<Point>) -> (target: Point)
    requires
        snap.true_pos.is_world(),
        snap.frame_offset.is_world(),
        snap.anchor matches Some(a) ==> a.position.is_world(),
        drawn matches Some(p) ==> p.is_world(),
    ensures
        target == chase_target_of(*snap, drawn),
{
    let com: Point = snap.true_pos.relative_to(&snap.frame_offset);
    match (snap.anchor, drawn) {
        (Some(anchor), Some(pose)) => Point {
            x: com.x + (pose.x - anchor.position.x),
            y: com.y + (pose.y - anchor.position.y),
            z: com.z + (pose.z - anchor.position.z),
        },
        _ => com,
    }
}

/// After the mount is put right the camera is detached exactly while it chases, and
/// nothing more is to be done.
pub proof fn law_mount_settles(controls: AtTheControls, flown: bool, has_parent: bool, mount: Mount)
    requires
        mount == (if has_parent != chases(controls, flown) {
            Mount::Keep
        } else if has_parent {
            Mount::Detach
        } else {
            Mount::Attach
        }),
    ensures
        mounted(has_parent, mount) == !chases(controls, flown),
{
}

/// At most one player of a room has the stick.
pub proof fn law_one_pilot(orb: Option<NetLaunch>, a: u64, b: u64, local: LaunchLocal)
    requires
        flies(true, orb, Some(a), local),
        flies(true, orb, Some(b), local),
    ensures
        a == b,
        a != 0,
{
}

/// Letting go of the look input brings the view back towards dead astern, never past it.
pub proof fn law_view_drifts_home(look: PilotLook, swing: Point, alpha: u32)
    requires
        alpha <= 1_000_000,
    ensures
        ({
            let after = look_after(look, true, Point { x: 0, y: 0, z: 0 }, swing, alpha);
            &&& look.yaw >= 0 ==> 0 <= after.yaw <= look.yaw
            &&& look.yaw <= 0 ==> look.yaw <= after.yaw <= 0
        }),
{
    lemma_drift_shrinks(look.yaw, alpha);
    lemma_drift_shrinks(look.pitch, alpha);
    assert(LOOK_IDLE * LOOK_IDLE == 1_000_000) by (nonlinear_arith);
    assert((Point { x: 0, y: 0, z: 0 }).len2() == 0) by (nonlinear_arith);
}

/// In a room the stick is with the player whom the flight names, and only once it flies;
/// alone it is with us for as long as we fly.
pub proof fn law_the_named_pilot_flies(
    orb: NetLaunch,
    id: u64,
    other: Option<NetLaunch>,
    my_id: Option<u64>,
    local: LaunchLocal,
)
    ensures
        orb.launched && orb.pilot == id && id != 0 ==> flies(true, Some(orb), Some(id), local),
        orb.pilot != id ==> !flies(true, Some(orb), Some(id), local),
        !orb.launched || orb.pilot == 0 ==> !flies(true, Some(orb), my_id, local),
        !flies(true, None, my_id, local),
        !flies(true, other, None, local),
        local.sp == SpPhase::Launched ==> flies(false, other, my_id, local),
        local.sp != SpPhase::Launched ==> !flies(false, other, my_id, local),
{
}

/// A held look swings the view with it: sideways by the swing sideways, up and down by the
/// swing up and down, which stops at the limit on the side it was swung to. Without the
/// controls the view is straight.
pub proof fn law_the_view_swings_with_the_look(
    look: PilotLook,
    input: Point,
    swing: Point,
    alpha: u32,
)
    requires
        input.x * input.x + input.y * input.y + input.z * input.z > 1_000_000,
        -LOOK_TURN_LIMIT <= look.yaw + swing.x <= LOOK_TURN_LIMIT,
    ensures
        ({
            let after = look_after(look, true, input, swing, alpha);
            &&& after.yaw - look.yaw == swing.x
            &&& -1_050_000 <= look.pitch + swing.y <= 1_050_000 ==> after.pitch - look.pitch
                == swing.y
            &&& look.pitch + swing.y > 1_050_000 ==> after.pitch == 1_050_000
            &&& look.pitch + swing.y < -1_050_000 ==> after.pitch == -1_050_000
        }),
        look_after(look, false, input, swing, alpha).yaw == 0,
        look_after(look, false, input, swing, alpha).pitch == 0,
{
}

/// What drifts away of a view that is let go is the asked share of it, to the microradian,
/// on either axis; all of it where all is asked for.
pub proof fn law_the_view_drifts_by_its_share(look: PilotLook, swing: Point, alpha: u32)
    requires
        alpha <= 1_000_000,
    ensures
        ({
            let after = look_after(look, true, Point { x: 0, y: 0, z: 0 }, swing, alpha);
            &&& -1_000_000 < 1_000_000 * (look.yaw - after.yaw) - look.yaw * alpha < 1_000_000
            &&& -1_000_000 < 1_000_000 * (look.pitch - after.pitch) - look.pitch * alpha
                < 1_000_000
            &&& alpha == 1_000_000 ==> after.yaw == 0 && after.pitch == 0
            &&& alpha == 0 ==> after == look
        }),
{
    lemma_drifted(look.yaw, alpha);
    lemma_drifted(look.pitch, alpha);
}

proof fn lemma_drifted(v: i64, alpha: u32)
    requires
        alpha <= 1_000_000,
    ensures
        -1_000_000 < 1_000_000 * (v - drifted(v, alpha)) - v * alpha < 1_000_000,
        v >= 0 ==> 0 <= drifted(v, alpha) <= v,
        v <= 0 ==> v <= drifted(v, alpha) <= 0,
        alpha == 1_000_000 ==> drifted(v, alpha) == 0,
        alpha == 0 ==> drifted(v, alpha) == v,
{
    let a = alpha as int;
    if v >= 0 {
        assert(0 <= v * a <= v * 1_000_000) by (nonlinear_arith)
            requires
                v >= 0,
                0 <= a <= 1_000_000,
        ;
    } else {
        let w = -v;
        assert(w * a == -(v * a)) by (nonlinear_arith)
            requires
                w == -v,
        ;
        assert(0 <= w * a <= w * 1_000_000) by (nonlinear_arith)
            requires
                w >= 0,
                0 <= a <= 1_000_000,
        ;
    }
    assert(a == 0 ==> v * a == 0) by (nonlinear_arith);
}

/// The chased craft is drawn as far from its anchor's drawn pose as its centre of mass is
/// from the anchor on the tick; without an anchor at its centre of mass.
pub proof fn law_the_craft_moves_with_its_anchor(
    snap: AutopilotSnapshot,
    anchor_at: Point,
    pose: Point,
)
    requires
        snap.true_pos.is_world(),
        snap.frame_offset.is_world(),
        anchor_at.is_world(),
        pose.is_world(),
        snap.anchor is Some,
        snap.anchor->0.position == anchor_at,
    ensures
        ({
            let target = chase_target_of(snap, Some(pose));
            &&& target.x - pose.x == snap.true_pos.x - snap.frame_offset.x - anchor_at.x
            &&& target.y - pose.y == snap.true_pos.y - snap.frame_offset.y - anchor_at.y
            &&& target.z - pose.z == snap.true_pos.z - snap.frame_offset.z - anchor_at.z
        }),
        ({
            let target = chase_target_of(snap, None);
            &&& target.x == snap.true_pos.x - snap.frame_offset.x
            &&& target.y == snap.true_pos.y - snap.frame_offset.y
            &&& target.z == snap.true_pos.z - snap.frame_offset.z
        }),
{
}

} // verus!
