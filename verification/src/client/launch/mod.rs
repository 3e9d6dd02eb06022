//! The launch: countdown, blastoff, and what each of them locks or lets go.
//!
//! In single player this client owns the countdown. In multiplayer the server does, and
//! replicates its state on the room's orb ([`NetLaunch`]); the orb is missing while the
//! client is not connected. Times are nanoseconds.

pub mod bodies;
pub mod rebase;
pub mod thrust;
pub mod ui;

use crate::client::render_secondary_pass::assembly::Joint;
use crate::lists::{contains, lemma_pick_none, lemma_pick_step, pick};
use vstd::prelude::*;

verus! {

/// How long "Blastoff!" stays up.
pub const BLASTOFF_BANNER: u64 = 1_500_000_000;

/// Length of the countdown.
pub const LAUNCH_COUNTDOWN: u64 = 3_000_000_000;

/// One second.
pub const SECOND: u64 = 1_000_000_000;

/// Phase of a single-player launch.
#[derive(Clone, Copy, Debug, PartialEq, Eq, Structural)]
pub enum SpPhase {
    Idle,
    Countdown { remaining: u64 },
    Launched,
}

/// Where a multiplayer room is in the life of its blastoff banner. The banner belongs to
/// a transition, but the replicated state is a level that may be missing; this latch makes
/// a witnessed edge of it.
#[derive(Clone, Copy, Debug, PartialEq, Eq, Structural)]
pub enum MpBanner {
    /// Connected, and the room has not been seen on the pad yet.
    WaitingForPrelaunch,
    /// Seen on the pad: the next launched reading is a blastoff.
    Armed,
    /// Shown for the current launch.
    Fired,
}

/// Deflection of a steering stick, in millionths along each axis.
#[derive(Clone, Copy, Debug, PartialEq, Eq, Structural)]
pub struct Stick {
    pub x: i32,
    pub y: i32,
}

/// The launch state that the server replicates on the room's orb.
#[derive(Clone, Copy, Debug, PartialEq, Eq, Structural)]
pub struct NetLaunch {
    /// Countdown left; zero when none is running.
    pub remaining: u64,
    /// Whether the room has blasted off.
    pub launched: bool,
    /// Who flies; zero for nobody.
    pub pilot: u64,
    /// The pilot's stick as the server last saw it.
    pub steer: Stick,
    /// Which ascent plan is flown.
    pub plan: u64,
}

/// Launch state of this client.
#[derive(Clone, Copy, Debug, PartialEq, Eq, Structural)]
pub struct LaunchLocal {
    /// How long the "Blastoff!" banner stays up yet.
    pub banner: u64,
    /// Phase of the single-player launch.
    pub sp: SpPhase,
    /// The multiplayer banner's latch.
    pub mp_banner: MpBanner,
}

impl Default for LaunchLocal {
    fn default() -> (local: Self)
        ensures
            local == (LaunchLocal {
                banner: 0,
                sp: SpPhase::Idle,
                mp_banner: MpBanner::WaitingForPrelaunch,
            }),
    {
        LaunchLocal { banner: 0, sp: SpPhase::Idle, mp_banner: MpBanner::WaitingForPrelaunch }
    }
}

impl LaunchLocal {
    /// Whether a single-player launch is counting down or has lifted off.
    pub fn launching(&self) -> (armed: bool)
        ensures
            armed == (self.sp != SpPhase::Idle),
    {
        match self.sp {
            SpPhase::Idle => false,
            _ => true,
        }
    }

    /// Whether a single-player launch has lifted off.
    pub fn sp_launched(&self) -> (launched: bool)
        ensures
            launched == (self.sp == SpPhase::Launched),
    {
        match self.sp {
            SpPhase::Launched => true,
            _ => false,
        }
    }
}

/// Whether the replicated room has blasted off. A missing orb says it has not.
pub open spec fn orb_launched(orb: Option<NetLaunch>) -> bool {
    orb is Some && orb->0.launched
}

/// Whether the room has blasted off, in either mode.
pub open spec fn in_flight(local: LaunchLocal, multiplayer: bool, orb: Option<NetLaunch>) -> bool {
    if multiplayer {
        orb_launched(orb)
    } else {
        local.sp == SpPhase::Launched
    }
}

/// Whether the multiplayer room has blasted off.
pub fn net_launched(orb: &Option<NetLaunch>) -> (launched: bool)
    ensures
        launched == orb_launched(*orb),
{
    match orb {
        Some(l) => l.launched,
        None => false,
    }
}

/// Whether the room has blasted off, in either mode.
pub fn room_launched(local: &LaunchLocal, multiplayer: bool, orb: &Option<NetLaunch>) -> (launched:
    bool)
    ensures
        launched == in_flight(*local, multiplayer, *orb),
{
    if multiplayer {
        net_launched(orb)
    } else {
        local.sp_launched()
    }
}

/// Whether a launch is counting down or has lifted off, in either mode. The orb and the
/// thrust arrow are hidden from then on.
pub fn launch_armed(local: &LaunchLocal, orb: &Option<NetLaunch>) -> (armed: bool)
    ensures
        armed == (local.sp != SpPhase::Idle || (orb is Some && (orb->0.launched || orb->0.remaining
            > 0))),
{
    local.launching() || match orb {
        Some(l) => l.launched || l.remaining > 0,
        None => false,
    }
}

/// In flight nobody builds: the lockout is published, and every build modifier is let go.
pub fn lock_out_building_in_flight(
    local: &LaunchLocal,
    multiplayer: bool,
    orb: &Option<NetLaunch>,
    locked_out: &mut bool,
    modifiers: &mut Vec<bool>,
)
    ensures
        *final(locked_out) == in_flight(*local, multiplayer, *orb),
        final(modifiers).len() == old(modifiers).len(),
        forall|i: int|
            0 <= i < old(modifiers).len() ==> #[trigger] final(modifiers)[i] == (old(modifiers)[i]
                && !in_flight(*local, multiplayer, *orb)),
{
    let launched: bool = room_launched(local, multiplayer, orb);
    if *locked_out != launched {
        *locked_out = launched;
    }
    if !launched {
        return;
    }
    let mut i: usize = 0;
    while i < modifiers.len()
        invariant
            i <= modifiers.len() == old(modifiers).len(),
            forall|j: int| 0 <= j < i ==> #[trigger] modifiers[j] == false,
        decreases modifiers.len() - i,
    {
        if modifiers[i] {
            modifiers.set(i, false);
        }
        i = i + 1;
    }
}

// ---- The tick ----------------------------------------------------------------------

/// What is left of `banner` after `dt`.
pub open spec fn after(banner: u64, dt: u64) -> u64 {
    if banner >= dt {
        (banner - dt) as u64
    } else {
        0
    }
}

/// Whether a reading of the room is a blastoff that this client witnessed.
pub open spec fn banner_fires(latch: MpBanner, reading: Option<bool>) -> bool {
    latch == MpBanner::Armed && reading == Some(true)
}

/// The latch after a reading: seeing the room on the pad arms it, a witnessed blastoff
/// spends it, and anything else leaves it alone.
pub open spec fn banner_next(latch: MpBanner, reading: Option<bool>) -> MpBanner {
    if reading == Some(false) {
        MpBanner::Armed
    } else if banner_fires(latch, reading) {
        MpBanner::Fired
    } else {
        latch
    }
}

/// What the orb says of the room.
pub open spec fn reading(orb: Option<NetLaunch>) -> Option<bool> {
    match orb {
        Some(l) => Some(l.launched),
        None => None,
    }
}

/// Whether this tick ends the countdown.
pub open spec fn lifts_off(sp: SpPhase, dt: u64) -> bool {
    sp matches SpPhase::Countdown { remaining } && remaining <= dt
}

/// The phase after a tick.
pub open spec fn phase_next(sp: SpPhase, dt: u64) -> SpPhase {
    match sp {
        SpPhase::Countdown { remaining } => if remaining <= dt {
            SpPhase::Launched
        } else {
            SpPhase::Countdown { remaining: (remaining - dt) as u64 }
        },
        _ => sp,
    }
}

/// The launch state after a tick of `dt`.
pub open spec fn ticked(
    local: LaunchLocal,
    dt: u64,
    multiplayer: bool,
    orb: Option<NetLaunch>,
) -> LaunchLocal {
    if multiplayer {
        LaunchLocal {
            banner: if banner_fires(local.mp_banner, reading(orb)) {
                BLASTOFF_BANNER
            } else {
                after(local.banner, dt)
            },
            sp: local.sp,
            mp_banner: banner_next(local.mp_banner, reading(orb)),
        }
    } else {
        LaunchLocal {
            banner: if lifts_off(local.sp, dt) {
                BLASTOFF_BANNER
            } else {
                after(local.banner, dt)
            },
            sp: phase_next(local.sp, dt),
            mp_banner: local.mp_banner,
        }
    }
}

/// Whether an end of `joint` is no part: the joint pins something to the ground.
pub open spec fn pins(joint: Joint, parts: Seq<u64>) -> bool {
    !parts.contains(joint.body1) || !parts.contains(joint.body2)
}

/// The joints that pin parts to the ground.
pub open spec fn ground_joints(joints: Seq<Joint>, parts: Seq<u64>) -> Seq<u64> {
    pick(joints, |j: Joint| pins(j, parts), |j: Joint| j.entity)
}

/// The joints to cut at blastoff: those with an end that is no part. Joints between parts
/// stay, so the assembly holds together.
pub fn cut_ground_joints(joints: &[Joint], parts: &[u64]) -> (cut: Vec<u64>)
    ensures
        cut@ == ground_joints(joints@, parts@),
{
    let mut cut: Vec<u64> = Vec::new();
    let mut i: usize = 0;
    let ghost p = |j: Joint| pins(j, parts@);
    let ghost f = |j: Joint| j.entity;
    proof {
        lemma_pick_none(joints@, p, f);
    }
    while i < joints.len()
        invariant
            i <= joints.len(),
            p == (|j: Joint| pins(j, parts@)),
            f == (|j: Joint| j.entity),
            cut@ == pick(joints@.take(i as int), p, f),
        decreases joints.len() - i,
    {
        proof {
            lemma_pick_step(joints@, i as int, p, f);
        }
        if !contains(parts, joints[i].body1) || !contains(parts, joints[i].body2) {
            cut.push(joints[i].entity);
        }
        i = i + 1;
    }
    assert(joints@.take(joints.len() as int) =~= joints@);
    cut
}

/// Advances the banner and the countdown by `dt`, or takes in the replicated state. Gives
/// the joints to cut: the ground joints on the tick of a single-player blastoff, otherwise
/// none.
pub fn tick_launch(
    local: &mut LaunchLocal,
    dt: u64,
    multiplayer: bool,
    orb: &Option<NetLaunch>,
    joints: &[Joint],
    parts: &[u64],
) -> (cut: Vec<u64>)
    ensures
        *final(local) == ticked(*old(local), dt, multiplayer, *orb),
        cut@ == (if !multiplayer && lifts_off(old(local).sp, dt) {
            ground_joints(joints@, parts@)
        } else {
            Seq::empty()
        }),
{
    if local.banner > 0 {
        local.banner = local.banner.saturating_sub(dt);
    }
    if multiplayer {
        match orb {
            Some(l) => {
                if !l.launched {
                    local.mp_banner = MpBanner::Armed;
                } else if local.mp_banner == MpBanner::Armed {
                    local.banner = BLASTOFF_BANNER;
                    local.mp_banner = MpBanner::Fired;
                }
            },
            None => {},
        }
        return Vec::new();
    }
    if let SpPhase::Countdown { remaining } = local.sp {
        if remaining <= dt {
            local.sp = SpPhase::Launched;
            local.banner = BLASTOFF_BANNER;
            return cut_ground_joints(joints, parts);
        }
        local.sp = SpPhase::Countdown { remaining: remaining - dt };
    }
    Vec::new()
}

/// The replicated joints that hold the ground, which `ground` names.
pub open spec fn clamps(joints: Seq<Joint>, ground: u64) -> Seq<u64> {
    pick(
        joints,
        |j: Joint| j.body1 == ground || j.body2 == ground,
        |j: Joint| j.entity,
    )
}

/// The predicted joints to let go of on this tick: the clamps to the ground once the
/// launch has fired (`fired` is what the orb says of this tick, `None` without an orb), and
/// none before.
pub fn release_predicted_ground_joints(
    fired: Option<bool>,
    joints: &[Joint],
    ground: u64,
) -> (released: Vec<u64>)
    ensures
        released@ == (if fired == Some(true) {
            clamps(joints@, ground)
        } else {
            Seq::empty()
        }),
{
    let mut released: Vec<u64> = Vec::new();
    match fired {
        Some(true) => {},
        _ => {
            return released;
        },
    }
    let ghost p = |j: Joint| j.body1 == ground || j.body2 == ground;
    let ghost f = |j: Joint| j.entity;
    proof {
        lemma_pick_none(joints@, p, f);
    }
    let mut i: usize = 0;
    while i < joints.len()
        invariant
            i <= joints.len(),
            p == (|j: Joint| j.body1 == ground || j.body2 == ground),
            f == (|j: Joint| j.entity),
            released@ == pick(joints@.take(i as int), p, f),
        decreases joints.len() - i,
    {
        proof {
            lemma_pick_step(joints@, i as int, p, f);
        }
        if joints[i].body1 == ground || joints[i].body2 == ground {
            released.push(joints[i].entity);
        }
        i = i + 1;
    }
    assert(joints@.take(joints.len() as int) =~= joints@);
    released
}

/// A message that is sent once, some time after the start.
#[derive(Clone, Copy, Debug, PartialEq, Eq, Structural)]
pub struct OneShot {
    pub elapsed: u64,
    pub sent: bool,
}

impl Default for OneShot {
    fn default() -> (shot: Self)
        ensures
            shot == (OneShot { elapsed: 0, sent: false }),
    {
        OneShot { elapsed: 0, sent: false }
    }
}

/// The clock of a one-shot after `dt` more; it stops at the largest time there is.
pub open spec fn clock(elapsed: u64, dt: u64) -> u64 {
    if elapsed + dt <= u64::MAX {
        (elapsed + dt) as u64
    } else {
        u64::MAX
    }
}

impl OneShot {
    /// Whether this tick sends: the delay has passed, a link is there, and it was not sent
    /// before.
    pub open spec fn due(self, delay: u64, dt: u64, linked: bool) -> bool {
        !self.sent && clock(self.elapsed, dt) >= delay && linked
    }

    /// Runs the clock, and says whether to send now.
    fn poll(&mut self, delay: u64, dt: u64, linked: bool) -> (send: bool)
        ensures
            send == old(self).due(delay, dt, linked),
            *final(self) == (OneShot {
                elapsed: if old(self).sent {
                    old(self).elapsed
                } else {
                    clock(old(self).elapsed, dt)
                },
                sent: old(self).sent || send,
            }),
    {
        if self.sent {
            return false;
        }
        self.elapsed = self.elapsed.saturating_add(dt);
        if self.elapsed < delay {
            return false;
        }
        if linked {
            self.sent = true;
        }
        linked
    }
}

/// How long a client that was asked to lock itself waits: it joins, lands on the deck and
/// settles first.
pub const AUTOLOCK_DELAY: u64 = 6_000_000_000;

/// Whether to send one lock request now, where one was asked for.
pub fn autolock_rider(shot: &mut OneShot, requested: bool, dt: u64, linked: bool) -> (send: bool)
    ensures
        send == (requested && old(shot).due(AUTOLOCK_DELAY, dt, linked)),
        *final(shot) == (if requested && !old(shot).sent {
            OneShot { elapsed: clock(old(shot).elapsed, dt), sent: send }
        } else {
            *old(shot)
        }),
{
    if !requested {
        return false;
    }
    shot.poll(AUTOLOCK_DELAY, dt, linked)
}

/// Whether to send one launch request now, where one was asked for after some time.
pub fn autolaunch(shot: &mut OneShot, delay: Option<u64>, dt: u64, linked: bool) -> (send: bool)
    ensures
        send == (delay is Some && old(shot).due(delay->0, dt, linked)),
        *final(shot) == (if delay is Some && !old(shot).sent {
            OneShot { elapsed: clock(old(shot).elapsed, dt), sent: send }
        } else {
            *old(shot)
        }),
{
    match delay {
        Some(d) => shot.poll(d, dt, linked),
        None => false,
    }
}

/// What was sent once is never sent again.
pub proof fn law_one_shot_fires_once(shot: OneShot, delay: u64, dt: u64, linked: bool)
    requires
        shot.sent,
    ensures
        !shot.due(delay, dt, linked),
{
}

/// The latch after a series of readings.
pub open spec fn banner_after(latch: MpBanner, readings: Seq<Option<bool>>) -> MpBanner
    decreases readings.len(),
{
    if readings.len() == 0 {
        latch
    } else {
        banner_next(banner_after(latch, readings.drop_last()), readings.last())
    }
}

/// Whether reading `i` of the series shows the banner.
pub open spec fn fires_at(latch: MpBanner, readings: Seq<Option<bool>>, i: int) -> bool {
    banner_fires(banner_after(latch, readings.take(i)), readings[i])
}

proof fn lemma_banner_step(latch: MpBanner, readings: Seq<Option<bool>>, i: int)
    requires
        0 <= i < readings.len(),
    ensures
        banner_after(latch, readings.take(i + 1)) == banner_next(
            banner_after(latch, readings.take(i)),
            readings[i],
        ),
{
    assert(readings.take(i + 1).drop_last() =~= readings.take(i));
    assert(readings.take(i + 1).last() == readings[i]);
}

/// Joining a room that has already launched never shows the banner: without a reading of
/// the room on the pad, the latch stays where it started.
pub proof fn law_no_banner_without_prelaunch(readings: Seq<Option<bool>>, i: int)
    requires
        0 <= i < readings.len(),
        forall|j: int| 0 <= j < i ==> #[trigger] readings[j] != Some(false),
    ensures
        banner_after(MpBanner::WaitingForPrelaunch, readings.take(i))
            == MpBanner::WaitingForPrelaunch,
        !fires_at(MpBanner::WaitingForPrelaunch, readings, i),
    decreases i,
{
    if i > 0 {
        law_no_banner_without_prelaunch(readings, i - 1);
        lemma_banner_step(MpBanner::WaitingForPrelaunch, readings, i - 1);
    } else {
        assert(readings.take(0).len() == 0);
    }
}

/// One launch shows the banner once: between two showings the room was on the pad again,
/// however often the orb went missing in between.
pub proof fn law_banner_once_per_launch(
    latch: MpBanner,
    readings: Seq<Option<bool>>,
    i: int,
    j: int,
)
    requires
        0 <= i < j < readings.len(),
        fires_at(latch, readings, i),
        fires_at(latch, readings, j),
    ensures
        exists|k: int| i < k < j && #[trigger] readings[k] == Some(false),
{
    if forall|k: int| i < k < j ==> #[trigger] readings[k] != Some(false) {
        lemma_stays_fired(latch, readings, i, j);
    }
}

proof fn lemma_stays_fired(latch: MpBanner, readings: Seq<Option<bool>>, i: int, j: int)
    requires
        0 <= i < j < readings.len(),
        fires_at(latch, readings, i),
        forall|k: int| i < k < j ==> #[trigger] readings[k] != Some(false),
    ensures
        banner_after(latch, readings.take(j)) == MpBanner::Fired,
    decreases j,
{
    lemma_banner_step(latch, readings, j - 1);
    if j > i + 1 {
        lemma_stays_fired(latch, readings, i, j - 1);
    }
}

/// The room was seen on the pad and then launched, with the orb present or missing in
/// between: the banner is shown.
pub proof fn law_witnessed_launch_shows_banner(
    latch: MpBanner,
    readings: Seq<Option<bool>>,
    i: int,
    j: int,
)
    requires
        0 <= i < j < readings.len(),
        readings[i] == Some(false),
        readings[j] == Some(true),
        forall|k: int| i < k < j ==> #[trigger] readings[k] is None,
    ensures
        fires_at(latch, readings, j),
{
    lemma_stays_armed(latch, readings, i, j);
}

proof fn lemma_stays_armed(latch: MpBanner, readings: Seq<Option<bool>>, i: int, j: int)
    requires
        0 <= i < j <= readings.len(),
        readings[i] == Some(false),
        forall|k: int| i < k < j ==> #[trigger] readings[k] is None,
    ensures
        banner_after(latch, readings.take(j)) == MpBanner::Armed,
    decreases j,
{
    lemma_banner_step(latch, readings, j - 1);
    if j > i + 1 {
        lemma_stays_armed(latch, readings, i, j - 1);
    }
}

/// Time passed over a series of ticks.
pub open spec fn elapsed(dts: Seq<u64>) -> nat
    decreases dts.len(),
{
    if dts.len() == 0 {
        0
    } else {
        elapsed(dts.drop_last()) + dts.last() as nat
    }
}

/// The phase after a series of ticks.
pub open spec fn phase_after(sp: SpPhase, dts: Seq<u64>) -> SpPhase
    decreases dts.len(),
{
    if dts.len() == 0 {
        sp
    } else {
        phase_next(phase_after(sp, dts.drop_last()), dts.last())
    }
}

/// A countdown lifts off on the tick on which its time has passed, however the ticks are
/// spaced, and not before.
pub proof fn law_countdown_keeps_time(remaining: u64, dts: Seq<u64>)
    requires
        remaining > 0,
    ensures
        phase_after(SpPhase::Countdown { remaining }, dts) == if elapsed(dts) >= remaining {
            SpPhase::Launched
        } else {
            SpPhase::Countdown { remaining: (remaining - elapsed(dts)) as u64 }
        },
    decreases dts.len(),
{
    if dts.len() > 0 {
        law_countdown_keeps_time(remaining, dts.drop_last());
    }
}

/// At blastoff no joint to the ground survives, and every joint between parts does.
pub proof fn law_blastoff_frees_the_assembly(joints: Seq<Joint>, parts: Seq<u64>, k: int)
    requires
        0 <= k < joints.len(),
        forall|i: int, j: int|
            0 <= i < joints.len() && 0 <= j < joints.len() && #[trigger] joints[i].entity
                == #[trigger] joints[j].entity ==> i == j,
    ensures
        ground_joints(joints, parts).contains(joints[k].entity) <==> pins(joints[k], parts),
{
    crate::lists::lemma_pick_contains(
        joints,
        |j: Joint| pins(j, parts),
        |j: Joint| j.entity,
        joints[k].entity,
    );
}

/// In a room the flight is what the server says, alone what our own countdown has come to. A
/// room without an orb does not fly.
pub proof fn law_flight_is_told_by_its_owner(local: LaunchLocal, orb: NetLaunch, any: Option<NetLaunch>)
    ensures
        orb.launched ==> in_flight(local, true, Some(orb)),
        !orb.launched ==> !in_flight(local, true, Some(orb)),
        !in_flight(local, true, None),
        local.sp == SpPhase::Launched ==> in_flight(local, false, any),
        local.sp != SpPhase::Launched ==> !in_flight(local, false, any),
        orb_launched(Some(orb)) == orb.launched,
        !orb_launched(None),
{
}

/// The banner stays for what is left of its time, and comes down with it.
pub proof fn law_the_banner_runs_out(banner: u64, dt: u64, more: u64)
    requires
        dt + more <= u64::MAX,
    ensures
        dt <= banner ==> after(banner, dt) + dt == banner,
        dt >= banner ==> after(banner, dt) == 0,
        after(after(banner, dt), more) == after(banner, (dt + more) as u64),
{
}

/// In a room the tick leaves our own countdown alone; a blastoff that is witnessed puts the
/// banner up for a second and a half, and otherwise it runs out.
pub proof fn law_a_room_tick(local: LaunchLocal, dt: u64, orb: NetLaunch)
    ensures
        ticked(local, dt, true, Some(orb)).sp == local.sp,
        ticked(local, dt, true, None).sp == local.sp,
        local.mp_banner == MpBanner::Armed && orb.launched ==> ticked(
            local,
            dt,
            true,
            Some(orb),
        ).banner == 1_500_000_000 && ticked(local, dt, true, Some(orb)).mp_banner
            == MpBanner::Fired,
        local.mp_banner != MpBanner::Armed || !orb.launched ==> ticked(
            local,
            dt,
            true,
            Some(orb),
        ).banner == after(local.banner, dt),
        !orb.launched ==> ticked(local, dt, true, Some(orb)).mp_banner == MpBanner::Armed,
        ticked(local, dt, true, None).banner == after(local.banner, dt),
        ticked(local, dt, true, None).mp_banner == local.mp_banner,
{
}

/// Alone the tick that ends the countdown lifts off and puts the banner up for a second and a
/// half; every other tick runs both down. Before the countdown nothing starts, and a flight
/// goes on.
pub proof fn law_a_lone_tick(local: LaunchLocal, dt: u64, orb: Option<NetLaunch>, remaining: u64)
    ensures
        ticked(local, dt, false, orb).mp_banner == local.mp_banner,
        local.sp == (SpPhase::Countdown { remaining }) && remaining <= dt ==> ticked(
            local,
            dt,
            false,
            orb,
        ).sp == SpPhase::Launched && ticked(local, dt, false, orb).banner == 1_500_000_000,
        local.sp == (SpPhase::Countdown { remaining }) && remaining > dt ==> (ticked(
            local,
            dt,
            false,
            orb,
        ).sp matches SpPhase::Countdown { remaining: left } && left + dt == remaining) && ticked(
            local,
            dt,
            false,
            orb,
        ).banner == after(local.banner, dt),
        local.sp == SpPhase::Idle || local.sp == SpPhase::Launched ==> ticked(
            local,
            dt,
            false,
            orb,
        ).sp == local.sp && ticked(local, dt, false, orb).banner == after(local.banner, dt),
        local.sp == (SpPhase::Countdown { remaining }) ==> (lifts_off(local.sp, dt) <==> remaining
            <= dt),
        local.sp == SpPhase::Idle || local.sp == SpPhase::Launched ==> !lifts_off(local.sp, dt),
{
}

/// A joint pins to the ground unless both of its ends are parts.
pub proof fn law_a_joint_between_parts_holds(joint: Joint, parts: Seq<u64>)
    ensures
        parts.contains(joint.body1) && parts.contains(joint.body2) ==> !pins(joint, parts),
        !parts.contains(joint.body1) ==> pins(joint, parts),
        !parts.contains(joint.body2) ==> pins(joint, parts),
{
}

/// One more joint is let go of with the clamps if either of its ends is the ground, and cut at
/// blastoff if it pins; other joints change neither list.
pub proof fn law_clamps_hold_the_ground(joints: Seq<Joint>, j: Joint, ground: u64, parts: Seq<u64>)
    ensures
        j.body1 == ground || j.body2 == ground ==> clamps(joints.push(j), ground) == clamps(
            joints,
            ground,
        ).push(j.entity),
        j.body1 != ground && j.body2 != ground ==> clamps(joints.push(j), ground) == clamps(
            joints,
            ground,
        ),
        pins(j, parts) ==> ground_joints(joints.push(j), parts) == ground_joints(
            joints,
            parts,
        ).push(j.entity),
        !pins(j, parts) ==> ground_joints(joints.push(j), parts) == ground_joints(joints, parts),
        clamps(Seq::empty(), ground) == Seq::<u64>::empty(),
        ground_joints(Seq::empty(), parts) == Seq::<u64>::empty(),
{
    let n = joints.len() as int;
    let more = joints.push(j);
    let none = Seq::<Joint>::empty();
    let (p, f) = (|j: Joint| j.body1 == ground || j.body2 == ground, |j: Joint| j.entity);
    let q = |j: Joint| pins(j, parts);
    assert(more.take(n) == joints && more.take(n + 1) == more && none.take(0) == none);
    lemma_pick_step(more, n, p, f);
    lemma_pick_none(none, p, f);
    lemma_pick_step(more, n, q, f);
    lemma_pick_none(none, q, f);
}

/// A message waits for its delay and for a link, and then goes: not before the time, and no
/// later than the first tick on which both are there.
pub proof fn law_a_one_shot_waits_its_time(shot: OneShot, delay: u64, dt: u64, linked: bool)
    requires
        shot.elapsed + dt <= u64::MAX,
    ensures
        !shot.sent && linked && shot.elapsed + dt >= delay ==> shot.due(delay, dt, linked),
        shot.elapsed + dt < delay ==> !shot.due(delay, dt, linked),
        !linked ==> !shot.due(delay, dt, linked),
        clock(shot.elapsed, dt) - shot.elapsed == dt,
{
}

} // verus!
