//! The burn: who takes part in it, in which order, and what is kept from tick to tick.

use crate::client::launch::{LaunchLocal, NetLaunch, SpPhase, Stick};
use crate::geom::{floor_sqrt, integer_sqrt, law_clamped_is_short, Long, Point};
use crate::lists::{
    ascending, contains, increasing, is_order, lemma_increasing_unique, lemma_pick_none,
    lemma_pick_step, order_by_key, pick,
};
use vstd::prelude::*;

verus! {

/// A part of the flown assembly.
#[derive(Clone, Copy, Debug, PartialEq, Eq, Structural)]
pub struct Member {
    pub entity: u64,
    /// The replicated id, the same on every peer.
    pub id: u64,
    pub position: Point,
    /// Mass in milligrams.
    pub mass: u32,
    /// Whether the part is a rocket.
    pub rocket: bool,
    /// The attitude controller's integral, where the part carries it.
    pub integral: Option<Point>,
    /// The state of the escape cutoff, where the part carries it.
    pub cut: Option<bool>,
}

/// A player aboard.
#[derive(Clone, Copy, Debug, PartialEq, Eq, Structural)]
pub struct Rider {
    pub client_id: u64,
    pub mass: u32,
}

/// A body and where it was.
#[derive(Clone, Copy, Debug, PartialEq, Eq, Structural)]
pub struct Anchor {
    pub entity: u64,
    pub position: Point,
}

/// The autopilot's state of one tick, for the flight readout and the trajectory line.
#[derive(Clone, Copy, Debug, PartialEq, Eq, Structural)]
pub struct AutopilotSnapshot {
    /// Centre of mass in the planet's frame.
    pub true_pos: Point,
    /// The room frame's offset that `true_pos` was folded with.
    pub frame_offset: Point,
    /// Velocity in the planet's frame, in micrometres per second.
    pub true_vel: Point,
    /// Which ascent plan is flown.
    pub seed: u64,
    /// Commanded tilt from the vertical, in microradians.
    pub command_angle: i64,
    /// A body of the assembly and its position on this tick.
    pub anchor: Option<Anchor>,
    /// Throttle in millionths; zero once the engines are cut.
    pub throttle: u32,
    /// Drag and net thrust in millinewtons.
    pub drag: u64,
    pub net_thrust: u64,
    /// Half the diagonal of the box that the assembly fills.
    pub radius: u64,
}

/// What the thrust systems keep from tick to tick and publish.
#[derive(Clone, Copy, Debug, PartialEq, Eq, Structural)]
pub struct ThrustLatch {
    /// Fuel spent in this launch, as impulse in millinewton seconds.
    pub fuel: u64,
    /// The ascent plan that is flown.
    pub plan: Option<u64>,
    /// Whether the escape cutoff holds the engines off.
    pub cut: bool,
    /// Which way is up aboard, in millionths along each axis.
    pub apparent: Option<Point>,
    pub autopilot: Option<AutopilotSnapshot>,
}

/// Nothing is flown.
pub open spec fn at_rest() -> ThrustLatch {
    ThrustLatch { fuel: 0, plan: None, cut: false, apparent: None, autopilot: None }
}

impl Default for ThrustLatch {
    fn default() -> (latch: Self)
        ensures
            latch == at_rest(),
    {
        ThrustLatch { fuel: 0, plan: None, cut: false, apparent: None, autopilot: None }
    }
}

/// Whether the tick flies a burn.
#[derive(Clone, Copy, Debug, PartialEq, Eq, Structural)]
pub enum Gate {
    Rest,
    /// Fly; `plan` says that the ascent plan has to be worked out first.
    Fly { plan: bool },
}

/// What a flown tick gives.
#[derive(Clone, Copy, Debug, PartialEq, Eq, Structural)]
pub struct Flown {
    pub plan: u64,
    pub cut: bool,
    /// Fuel spent on the tick.
    pub fuel: u64,
    /// Flown mass, riders and all.
    pub mass: u128,
    pub apparent: Point,
    pub snapshot: AutopilotSnapshot,
}

/// Gates the single-player burn. Before blastoff everything is reset, so that the next
/// launch starts fresh; an assembly that broke up publishes nothing.
pub fn apply_sp_thrust(
    latch: &mut ThrustLatch,
    local: &LaunchLocal,
    assembled: bool,
    measured: bool,
) -> (gate: Gate)
    ensures
        gate == (if local.sp == SpPhase::Launched && assembled && measured {
            Gate::Fly { plan: old(latch).plan is None }
        } else {
            Gate::Rest
        }),
        *final(latch) == (if local.sp != SpPhase::Launched {
            at_rest()
        } else if !assembled {
            ThrustLatch { apparent: None, autopilot: None, ..*old(latch) }
        } else if !measured {
            ThrustLatch { autopilot: None, ..*old(latch) }
        } else {
            *old(latch)
        }),
{
    if !local.sp_launched() {
        latch.fuel = 0;
        latch.plan = None;
        latch.cut = false;
        latch.apparent = None;
        latch.autopilot = None;
        return Gate::Rest;
    }
    if !assembled {
        latch.apparent = None;
        latch.autopilot = None;
        return Gate::Rest;
    }
    if !measured {
        latch.autopilot = None;
        return Gate::Rest;
    }
    Gate::Fly { plan: latch.plan.is_none() }
}

/// Gates the predicted multiplayer burn. `launch` is the orb once the launch has fired on
/// this tick. The plan is worked out again when the replicated one differs from the one
/// that is flown.
pub fn apply_mp_thrust(latch: &mut ThrustLatch, launch: &Option<NetLaunch>, measured: bool) -> (gate:
    Gate)
    ensures
        gate == (if launch is Some && measured {
            Gate::Fly { plan: old(latch).plan != Some(launch->0.plan) }
        } else {
            Gate::Rest
        }),
        *final(latch) == (match launch {
            None => at_rest(),
            Some(l) => if !measured {
                ThrustLatch { apparent: None, autopilot: None, ..*old(latch) }
            } else {
                ThrustLatch { plan: Some(l.plan), ..*old(latch) }
            },
        }),
{
    let seed: u64 = match launch {
        Some(l) => l.plan,
        None => {
            latch.fuel = 0;
            latch.plan = None;
            latch.cut = false;
            latch.apparent = None;
            latch.autopilot = None;
            return Gate::Rest;
        },
    };
    let fresh: bool = match latch.plan {
        Some(p) => p != seed,
        None => true,
    };
    if !measured {
        latch.apparent = None;
        latch.autopilot = None;
        return Gate::Rest;
    }
    latch.plan = Some(seed);
    Gate::Fly { plan: fresh }
}

/// The latch after a flown tick: fuel adds up, the plan of the launch stays, and the
/// readouts are published as long as anything with mass flies.
pub open spec fn after_burn(latch: ThrustLatch, flown: Flown) -> ThrustLatch {
    ThrustLatch {
        fuel: if latch.fuel + flown.fuel <= u64::MAX {
            (latch.fuel + flown.fuel) as u64
        } else {
            u64::MAX
        },
        plan: match latch.plan {
            Some(p) => Some(p),
            None => Some(flown.plan),
        },
        cut: flown.cut,
        apparent: if flown.mass > 0 {
            Some(flown.apparent)
        } else {
            None
        },
        autopilot: if flown.mass > 0 {
            Some(flown.snapshot)
        } else {
            None
        },
    }
}

/// Takes in what a flown tick gave.
pub fn finish_burn(latch: &mut ThrustLatch, flown: &Flown)
    ensures
        *final(latch) == after_burn(*old(latch), *flown),
{
    latch.fuel = latch.fuel.saturating_add(flown.fuel);
    if latch.plan.is_none() {
        latch.plan = Some(flown.plan);
    }
    latch.cut = flown.cut;
    latch.apparent = if flown.mass > 0 { Some(flown.apparent) } else { None };
    latch.autopilot = if flown.mass > 0 { Some(flown.snapshot) } else { None };
}

// ---- Who flies ---------------------------------------------------------------------

/// Mass of all members together.
pub open spec fn member_mass(members: Seq<Member>) -> nat
    decreases members.len(),
{
    if members.len() == 0 {
        0
    } else {
        member_mass(members.drop_last()) + members.last().mass as nat
    }
}

/// Mass of all riders together.
pub open spec fn rider_mass(riders: Seq<Rider>) -> nat
    decreases riders.len(),
{
    if riders.len() == 0 {
        0
    } else {
        rider_mass(riders.drop_last()) + riders.last().mass as nat
    }
}

/// The members in the order `order`.
pub open spec fn arranged(members: Seq<Member>, order: Seq<usize>) -> Seq<Member> {
    order.map_values(|i: usize| members[i as int])
}

/// The rockets among `members`, in their order.
pub open spec fn rockets_of(members: Seq<Member>) -> Seq<u64>
    decreases members.len(),
{
    if members.len() == 0 {
        Seq::empty()
    } else if members.last().rocket {
        rockets_of(members.drop_last()).push(members.last().entity)
    } else {
        rockets_of(members.drop_last())
    }
}

/// The integral that the first member which has one carries.
pub open spec fn first_integral(members: Seq<Member>) -> Option<Point>
    decreases members.len(),
{
    if members.len() == 0 {
        None
    } else if first_integral(members.drop_last()) is Some {
        first_integral(members.drop_last())
    } else {
        members.last().integral
    }
}

/// The cutoff state that the first member which has one carries.
pub open spec fn first_cut(members: Seq<Member>) -> Option<bool>
    decreases members.len(),
{
    if members.len() == 0 {
        None
    } else if first_cut(members.drop_last()) is Some {
        first_cut(members.drop_last())
    } else {
        members.last().cut
    }
}

/// What the burn of a tick works on.
pub struct BurnInput {
    /// The members by ascending id.
    pub members: Vec<Member>,
    /// Indices of the riders by ascending client id; they follow the members.
    pub rider_order: Vec<usize>,
    /// The rockets, in the members' order.
    pub rockets: Vec<u64>,
    pub integral: Option<Point>,
    pub cut: bool,
    /// Mass of members and riders.
    pub total_mass: u128,
    pub radius: u64,
}

fn member_keys(members: &[Member]) -> (keys: Vec<u64>)
    ensures
        keys@ == members@.map_values(|m: Member| m.id),
{
    let mut keys: Vec<u64> = Vec::new();
    let mut i: usize = 0;
    while i < members.len()
        invariant
            i <= members.len(),
            keys@ == members@.take(i as int).map_values(|m: Member| m.id),
        decreases members.len() - i,
    {
        keys.push(members[i].id);
        assert(members@.take(i + 1) =~= members@.take(i as int).push(members@[i as int]));
        assert(keys@ =~= members@.take(i + 1).map_values(|m: Member| m.id));
        i = i + 1;
    }
    assert(members@.take(members.len() as int) =~= members@);
    keys
}

fn rider_keys(riders: &[Rider]) -> (keys: Vec<u64>)
    ensures
        keys@ == riders@.map_values(|r: Rider| r.client_id),
{
    let mut keys: Vec<u64> = Vec::new();
    let mut i: usize = 0;
    while i < riders.len()
        invariant
            i <= riders.len(),
            keys@ == riders@.take(i as int).map_values(|r: Rider| r.client_id),
        decreases riders.len() - i,
    {
        keys.push(riders[i].client_id);
        assert(riders@.take(i + 1) =~= riders@.take(i as int).push(riders@[i as int]));
        assert(keys@ =~= riders@.take(i + 1).map_values(|r: Rider| r.client_id));
        i = i + 1;
    }
    assert(riders@.take(riders.len() as int) =~= riders@);
    keys
}

/// Collects what the burn works on, in an order that does not depend on the order in
/// which a peer happens to hold its parts and riders.
pub fn gather_burn(members: &[Member], riders: &[Rider]) -> (input: BurnInput)
    requires
        forall|i: int| 0 <= i < members@.len() ==> (#[trigger] members@[i]).position.is_local(),
    ensures
        exists|order: Seq<usize>|
            #![trigger arranged(members@, order)]
            is_order(order, members@.len() as int) && ascending(
                order,
                members@.map_values(|m: Member| m.id),
            ) && input.members@ == arranged(members@, order),
        is_order(input.rider_order@, riders@.len() as int),
        ascending(input.rider_order@, riders@.map_values(|r: Rider| r.client_id)),
        input.rockets@ == rockets_of(input.members@),
        input.integral == first_integral(input.members@),
        input.cut == (first_cut(input.members@) == Some(true)),
        input.total_mass == member_mass(members@) + rider_mass(riders@),
        input.radius == spread_of(members@.map_values(|m: Member| m.position)),
{
    let keys: Vec<u64> = member_keys(members);
    let order: Vec<usize> = order_by_key(&keys);
    let client_ids: Vec<u64> = rider_keys(riders);
    let rider_order: Vec<usize> = order_by_key(&client_ids);
    let mut sorted: Vec<Member> = Vec::new();
    let mut rockets: Vec<u64> = Vec::new();
    let mut integral: Option<Point> = None;
    let mut cut: Option<bool> = None;
    let mut i: usize = 0;
    while i < order.len()
        invariant
            i <= order.len() == members.len(),
            is_order(order@, members@.len() as int),
            sorted@ == arranged(members@, order@.take(i as int)),
            rockets@ == rockets_of(sorted@),
            integral == first_integral(sorted@),
            cut == first_cut(sorted@),
        decreases order.len() - i,
    {
        let m: Member = members[order[i]];
        let ghost before = sorted@;
        if m.rocket {
            rockets.push(m.entity);
        }
        if integral.is_none() {
            integral = m.integral;
        }
        if cut.is_none() {
            cut = m.cut;
        }
        sorted.push(m);
        proof {
            assert(sorted@.drop_last() =~= before);
            assert(order@.take(i + 1) =~= order@.take(i as int).push(order@[i as int]));
            assert(sorted@ =~= arranged(members@, order@.take(i + 1)));
        }
        i = i + 1;
    }
    assert(order@.take(order.len() as int) =~= order@);
    let mut total_mass: u128 = 0;
    let mut points: Vec<Point> = Vec::new();
    let mut k: usize = 0;
    while k < members.len()
        invariant
            k <= members.len(),
            forall|i: int| 0 <= i < members@.len() ==> (#[trigger] members@[i]).position.is_local(),
            total_mass == member_mass(members@.take(k as int)),
            total_mass <= k * 0xffff_ffff,
            points@ == members@.take(k as int).map_values(|m: Member| m.position),
        decreases members.len() - k,
    {
        proof {
            assert(members@.take(k + 1).drop_last() =~= members@.take(k as int));
            assert(members@.take(k + 1) =~= members@.take(k as int).push(members@[k as int]));
        }
        total_mass = total_mass + members[k].mass as u128;
        points.push(members[k].position);
        assert(points@ =~= members@.take(k + 1).map_values(|m: Member| m.position));
        k = k + 1;
    }
    assert(members@.take(members.len() as int) =~= members@);
    let mut r: usize = 0;
    while r < riders.len()
        invariant
            r <= riders.len(),
            total_mass == member_mass(members@) + rider_mass(riders@.take(r as int)),
            member_mass(members@) <= members.len() * 0xffff_ffff,
            rider_mass(riders@.take(r as int)) <= r * 0xffff_ffff,
        decreases riders.len() - r,
    {
        proof {
            assert(riders@.take(r + 1).drop_last() =~= riders@.take(r as int));
        }
        total_mass = total_mass + riders[r].mass as u128;
        r = r + 1;
    }
    assert(riders@.take(riders.len() as int) =~= riders@);
    assert forall|i: int| 0 <= i < points@.len() implies (#[trigger] points@[i]).is_local() by {
        assert(points@[i] == members@[i].position);
    }
    let radius: u64 = spread(&points);
    assert(sorted@ == arranged(members@, order@));
    BurnInput {
        members: sorted,
        rider_order,
        rockets,
        integral,
        cut: match cut {
            Some(c) => c,
            None => false,
        },
        total_mass,
        radius,
    }
}

// ---- How large the craft is --------------------------------------------------------

/// The smaller of two numbers.
pub open spec fn least(a: i64, b: i64) -> i64 {
    if a <= b {
        a
    } else {
        b
    }
}

/// The larger of two numbers.
pub open spec fn most(a: i64, b: i64) -> i64 {
    if a >= b {
        a
    } else {
        b
    }
}

/// The low corner of the box around `points`.
pub open spec fn low_corner(points: Seq<Point>) -> Point
    recommends
        points.len() > 0,
    decreases points.len(),
{
    if points.len() <= 1 {
        points[0]
    } else {
        let c = low_corner(points.drop_last());
        let p = points.last();
        Point { x: least(c.x, p.x), y: least(c.y, p.y), z: least(c.z, p.z) }
    }
}

/// The high corner of the box around `points`.
pub open spec fn high_corner(points: Seq<Point>) -> Point
    recommends
        points.len() > 0,
    decreases points.len(),
{
    if points.len() <= 1 {
        points[0]
    } else {
        let c = high_corner(points.drop_last());
        let p = points.last();
        Point { x: most(c.x, p.x), y: most(c.y, p.y), z: most(c.z, p.z) }
    }
}

/// Half the diagonal of the box around `points`; nothing for no points.
pub open spec fn spread_of(points: Seq<Point>) -> int {
    if points.len() == 0 {
        0
    } else {
        low_corner(points).dist(high_corner(points)) as int / 2
    }
}

fn min_of(a: i64, b: i64) -> (m: i64)
    ensures
        m == least(a, b),
{
    if a <= b {
        a
    } else {
        b
    }
}

fn max_of(a: i64, b: i64) -> (m: i64)
    ensures
        m == most(a, b),
{
    if a >= b {
        a
    } else {
        b
    }
}

/// Half the diagonal of the box around `points`.
pub fn spread(points: &[Point]) -> (r: u64)
    requires
        forall|i: int| 0 <= i < points@.len() ==> (#[trigger] points@[i]).is_local(),
    ensures
        r == spread_of(points@),
{
    if points.len() == 0 {
        return 0;
    }
    let mut lo: Point = points[0];
    let mut hi: Point = points[0];
    let mut i: usize = 1;
    proof {
        assert(points@.take(1).len() == 1);
        assert(points@.take(1)[0] == points@[0]);
        assert(points@[0].is_local());
    }
    while i < points.len()
        invariant
            1 <= i <= points.len(),
            forall|k: int| 0 <= k < points@.len() ==> (#[trigger] points@[k]).is_local(),
            lo == low_corner(points@.take(i as int)),
            hi == high_corner(points@.take(i as int)),
            lo.is_local(),
            hi.is_local(),
        decreases points.len() - i,
    {
        let p: Point = points[i];
        proof {
            assert(points@[i as int].is_local());
            assert(points@.take(i + 1).drop_last() =~= points@.take(i as int));
            assert(points@.take(i + 1).last() == p);
        }
        lo = Point { x: min_of(lo.x, p.x), y: min_of(lo.y, p.y), z: min_of(lo.z, p.z) };
        hi = Point { x: max_of(hi.x, p.x), y: max_of(hi.y, p.y), z: max_of(hi.z, p.z) };
        i = i + 1;
    }
    assert(points@.take(points.len() as int) =~= points@);
    lo.distance(&hi) / 2
}

/// Every point lies in the box whose diagonal is measured.
pub proof fn law_box_holds_every_point(points: Seq<Point>, i: int)
    requires
        0 <= i < points.len(),
    ensures
        low_corner(points).x <= points[i].x <= high_corner(points).x,
        low_corner(points).y <= points[i].y <= high_corner(points).y,
        low_corner(points).z <= points[i].z <= high_corner(points).z,
    decreases points.len(),
{
    if points.len() > 1 && i < points.len() - 1 {
        law_box_holds_every_point(points.drop_last(), i);
    } else if points.len() > 1 {
        assert(points.last() == points[i]);
    }
}

// ---- Flames and drag ---------------------------------------------------------------

/// The burn of one rocket on one tick.
#[derive(Clone, Copy, Debug, PartialEq, Eq, Structural)]
pub struct RocketBurn {
    pub entity: u64,
    /// The force, in millinewtons, and the point at which it acts.
    pub force: Point,
    pub point: Point,
    /// How far the nozzle is swung.
    pub gimbal: Stick,
}

/// Strength of a flame, in millionths: the force as a share of a full burn, at most all
/// of it.
pub open spec fn flame_of(force: u64, full: u64) -> int {
    if force >= full {
        1_000_000
    } else {
        force as int * 1_000_000 / full as int
    }
}

/// Strength of the flame of a rocket.
pub fn flame_target(force: u64, full: u64) -> (target: u32)
    requires
        full > 0,
    ensures
        target == flame_of(force, full),
        target <= 1_000_000,
{
    if force >= full {
        return 1_000_000;
    }
    proof {
        assert(0 <= (force as int * 1_000_000) / (full as int) <= 1_000_000) by (nonlinear_arith)
            requires
                0 <= force < full,
        ;
    }
    (force as u128 * 1_000_000 / full as u128) as u32
}

/// What a burn writes to a rocket that is there: the burn itself, and the strength of its
/// flame.
#[derive(Clone, Copy, Debug, PartialEq, Eq, Structural)]
pub struct RocketWrite {
    pub burn: RocketBurn,
    pub flame: u32,
}

/// What the burns of a tick write: to the rockets, and the rocket that the whole assembly's
/// drag is charged to. The force of all of them together is in millinewtons.
pub struct ThrustWrites {
    pub rockets: Vec<RocketWrite>,
    pub drag: Option<u64>,
    pub net_force: Long,
}

/// What `burn` writes to its rocket.
pub open spec fn write_of(burn: RocketBurn, full: u64) -> RocketWrite {
    RocketWrite {
        burn,
        flame: flame_of(floor_sqrt(burn.force.len2() as nat) as u64, full) as u32,
    }
}

/// The sum of the forces of `burns`, along each axis.
pub open spec fn net_force_of(burns: Seq<RocketBurn>) -> (int, int, int)
    decreases burns.len(),
{
    if burns.len() == 0 {
        (0, 0, 0)
    } else {
        let (before, f) = (net_force_of(burns.drop_last()), burns.last().force);
        (before.0 + f.x, before.1 + f.y, before.2 + f.z)
    }
}

/// What the burns of a tick write. `geometry` lists the rockets that were asked to burn,
/// `rockets` those that are there to be written to.
pub fn apply_thrust(geometry: &[u64], burns: &[RocketBurn], rockets: &[u64], full: u64) -> (writes:
    ThrustWrites)
    requires
        full > 0,
        forall|i: int| 0 <= i < burns@.len() ==> (#[trigger] burns@[i]).force.is_local(),
    ensures
        geometry@.len() == 0 ==> {
            &&& writes.rockets@.len() == 0
            &&& writes.drag is None
            &&& writes.net_force == (Long { x: 0, y: 0, z: 0 })
        },
        geometry@.len() > 0 ==> {
            &&& writes.rockets@ == pick(
                burns@,
                |b: RocketBurn| rockets@.contains(b.entity),
                |b: RocketBurn| write_of(b, full),
            )
            &&& writes.drag == (if rockets@.contains(geometry@[0]) {
                Some(geometry@[0])
            } else {
                None
            })
            &&& writes.net_force.x == net_force_of(burns@).0
            &&& writes.net_force.y == net_force_of(burns@).1
            &&& writes.net_force.z == net_force_of(burns@).2
        },
{
    let mut written: Vec<RocketWrite> = Vec::new();
    let (mut x, mut y, mut z): (i128, i128, i128) = (0, 0, 0);
    if geometry.len() == 0 {
        return ThrustWrites { rockets: written, drag: None, net_force: Long { x, y, z } };
    }
    let ghost p = |b: RocketBurn| rockets@.contains(b.entity);
    let ghost f = |b: RocketBurn| write_of(b, full);
    proof {
        lemma_pick_none(burns@, p, f);
        assert(burns@.take(0).len() == 0);
    }
    let mut i: usize = 0;
    while i < burns.len()
        invariant
            i <= burns.len(),
            full > 0,
            forall|k: int| 0 <= k < burns@.len() ==> (#[trigger] burns@[k]).force.is_local(),
            p == (|b: RocketBurn| rockets@.contains(b.entity)),
            f == (|b: RocketBurn| write_of(b, full)),
            written@ == pick(burns@.take(i as int), p, f),
            (x as int, y as int, z as int) == net_force_of(burns@.take(i as int)),
            -0x1000_0000_0000_0000 * i <= x <= 0x1000_0000_0000_0000 * i,
            -0x1000_0000_0000_0000 * i <= y <= 0x1000_0000_0000_0000 * i,
            -0x1000_0000_0000_0000 * i <= z <= 0x1000_0000_0000_0000 * i,
        decreases burns.len() - i,
    {
        let burn: RocketBurn = burns[i];
        proof {
            lemma_pick_step(burns@, i as int, p, f);
            assert(burns@[i as int].force.is_local());
            assert(burns@.take(i + 1).drop_last() =~= burns@.take(i as int));
            assert(burns@.take(i + 1).last() == burn);
        }
        if contains(rockets, burn.entity) {
            let strength: u64 = integer_sqrt(burn.force.length_squared());
            written.push(RocketWrite { burn, flame: flame_target(strength, full) });
        }
        x = x + burn.force.x as i128;
        y = y + burn.force.y as i128;
        z = z + burn.force.z as i128;
        i = i + 1;
    }
    assert(burns@.take(burns.len() as int) =~= burns@);
    let drag: Option<u64> = if contains(rockets, geometry[0]) { Some(geometry[0]) } else { None };
    ThrustWrites { rockets: written, drag, net_force: Long { x, y, z } }
}

/// A lone burn pushes with its own force: along x by what it pushes along x, and so on. No burn
/// pushes with none.
pub proof fn law_a_lone_burn_is_the_net_force(burn: RocketBurn)
    ensures
        net_force_of(seq![burn]).0 == burn.force.x,
        net_force_of(seq![burn]).1 == burn.force.y,
        net_force_of(seq![burn]).2 == burn.force.z,
        net_force_of(Seq::empty()) == (0int, 0int, 0int),
{
    assert(seq![burn].drop_last() =~= Seq::<RocketBurn>::empty());
    assert(net_force_of(Seq::empty()) == (0int, 0int, 0int));
}

/// Burns push together by what each of them pushes: the net force of two lists is the sum of
/// theirs along each axis, in whichever order they come.
pub proof fn law_net_forces_add_up(a: Seq<RocketBurn>, b: Seq<RocketBurn>)
    ensures
        net_force_of(a + b).0 == net_force_of(a).0 + net_force_of(b).0,
        net_force_of(a + b).1 == net_force_of(a).1 + net_force_of(b).1,
        net_force_of(a + b).2 == net_force_of(a).2 + net_force_of(b).2,
        net_force_of(a + b) == net_force_of(b + a),
    decreases a.len() + b.len(),
{
    lemma_net_force_of_both(a, b);
    lemma_net_force_of_both(b, a);
}

proof fn lemma_net_force_of_both(a: Seq<RocketBurn>, b: Seq<RocketBurn>)
    ensures
        net_force_of(a + b).0 == net_force_of(a).0 + net_force_of(b).0,
        net_force_of(a + b).1 == net_force_of(a).1 + net_force_of(b).1,
        net_force_of(a + b).2 == net_force_of(a).2 + net_force_of(b).2,
    decreases b.len(),
{
    if b.len() == 0 {
        assert(a + b =~= a);
    } else {
        lemma_net_force_of_both(a, b.drop_last());
        assert((a + b).drop_last() =~= a + b.drop_last());
        assert((a + b).last() == b.last());
    }
}

/// A flame is the share of a full burn that its rocket gives, and no more than all of it: out
/// without a force, full from a full burn on, and never weaker for a stronger force.
pub proof fn law_flames_show_the_force(force: u64, more: u64, full: u64)
    requires
        full > 0,
        force <= more,
    ensures
        0 <= flame_of(force, full) <= flame_of(more, full) <= 1_000_000,
        flame_of(0, full) == 0,
        force >= full ==> flame_of(force, full) == 1_000_000,
        force <= full ==> 0 <= 1_000_000 * force - flame_of(force, full) * full < full,
{
    lemma_flame(force, full);
    lemma_flame(more, full);
    let (a, b, d) = (force as int * 1_000_000, more as int * 1_000_000, full as int);
    assert(a / d <= b / d) by (nonlinear_arith)
        requires
            a <= b,
            0 < d,
    ;
    assert(0int / d == 0) by (nonlinear_arith)
        requires
            0 < d,
    ;
}

proof fn lemma_flame(force: u64, full: u64)
    requires
        full > 0,
    ensures
        0 <= flame_of(force, full) <= 1_000_000,
        force <= full ==> 0 <= 1_000_000 * force - flame_of(force, full) * full < full,
{
    let (a, d) = (force as int * 1_000_000, full as int);
    vstd::arithmetic::div_mod::lemma_fundamental_div_mod(a, d);
    let q = a / d;
    assert(d * q == q * d) by (nonlinear_arith);
    if force < full {
        assert(0 <= q <= 1_000_000) by (nonlinear_arith)
            requires
                q == a / d,
                0 <= a <= 1_000_000 * d,
                0 < d,
        ;
    }
}

/// What is written to a rocket is its own burn, with a flame by the strength `m` of its force.
pub proof fn law_a_rocket_gets_its_own_burn(burn: RocketBurn, full: u64, m: u64)
    requires
        full > 0,
        m * m <= burn.force.x * burn.force.x + burn.force.y * burn.force.y + burn.force.z
            * burn.force.z < (m + 1) * (m + 1),
    ensures
        write_of(burn, full).burn == burn,
        m >= full ==> write_of(burn, full).flame == 1_000_000,
        m <= full ==> 0 <= 1_000_000 * m - write_of(burn, full).flame * full < full,
{
    crate::geom::lemma_floor_sqrt_unique(m as nat, burn.force.len2() as nat);
    lemma_flame(m, full);
}

/// Puts every flame out; a burn then lights those it fires.
pub fn reset_flame_targets(targets: &mut Vec<u32>)
    ensures
        final(targets).len() == old(targets).len(),
        forall|i: int| 0 <= i < final(targets).len() ==> #[trigger] final(targets)[i] == 0,
{
    let mut i: usize = 0;
    while i < targets.len()
        invariant
            i <= targets.len() == old(targets).len(),
            forall|k: int| 0 <= k < i ==> #[trigger] targets[k] == 0,
        decreases targets.len() - i,
    {
        targets.set(i, 0);
        i = i + 1;
    }
}

// ---- Whose hands are on the stick --------------------------------------------------

/// Full deflection.
pub const FULL_STICK: i32 = 1_000_000;

/// The deflection that is flown, before it is clamped: the pilot's own input of this tick,
/// and everybody else's replicated one.
pub open spec fn raw_stick(launch: NetLaunch, my_id: Option<u64>, own: Option<Stick>) -> Stick {
    if launch.pilot != 0 && my_id == Some(launch.pilot) {
        match own {
            Some(s) => s,
            None => Stick { x: 0, y: 0 },
        }
    } else {
        launch.steer
    }
}

/// `s` shortened to full deflection, if it is longer.
pub open spec fn clamp_stick(s: Stick) -> Stick {
    let c = Point { x: s.x as i64, y: s.y as i64, z: 0 }.clamped(FULL_STICK as int);
    Stick { x: c.x as i32, y: c.y as i32 }
}

/// Shortens a deflection to the full one, if it is longer.
pub fn clamp_to_full(s: Stick) -> (c: Stick)
    ensures
        c == clamp_stick(s),
        c.x * c.x + c.y * c.y <= FULL_STICK * FULL_STICK,
{
    let p: Point = Point { x: s.x as i64, y: s.y as i64, z: 0 };
    let c: Point = p.clamp_length(FULL_STICK as u64);
    proof {
        law_stick_is_clamped(s);
    }
    Stick { x: c.x as i32, y: c.y as i32 }
}

/// The deflection that is flown in multiplayer.
pub fn stick(launch: &NetLaunch, my_id: Option<u64>, own: Option<Stick>) -> (s: Stick)
    ensures
        s == clamp_stick(raw_stick(*launch, my_id, own)),
{
    let mine: bool = launch.pilot != 0 && match my_id {
        Some(id) => id == launch.pilot,
        None => false,
    };
    let raw: Stick = if mine {
        match own {
            Some(s) => s,
            None => Stick { x: 0, y: 0 },
        }
    } else {
        launch.steer
    };
    clamp_to_full(raw)
}

/// Two peers that hold the same parts, in whatever order, burn them in one order.
pub proof fn law_peers_share_one_order(
    a: Seq<Member>,
    b: Seq<Member>,
    order_a: Seq<usize>,
    order_b: Seq<usize>,
)
    requires
        is_order(order_a, a.len() as int),
        is_order(order_b, b.len() as int),
        ascending(order_a, a.map_values(|m: Member| m.id)),
        ascending(order_b, b.map_values(|m: Member| m.id)),
        forall|i: int, j: int|
            0 <= i < a.len() && 0 <= j < a.len() && #[trigger] a[i].id == #[trigger] a[j].id ==> i
                == j,
        forall|i: int, j: int|
            0 <= i < b.len() && 0 <= j < b.len() && #[trigger] b[i].id == #[trigger] b[j].id ==> i
                == j,
        forall|i: int| 0 <= i < a.len() ==> b.contains(#[trigger] a[i]),
        forall|i: int| 0 <= i < b.len() ==> a.contains(#[trigger] b[i]),
    ensures
        arranged(a, order_a) == arranged(b, order_b),
{
    let ka = order_a.map_values(|i: usize| a[i as int].id);
    let kb = order_b.map_values(|i: usize| b[i as int].id);
    lemma_keys_increase(a, order_a);
    lemma_keys_increase(b, order_b);
    assert forall|x: u64| #[trigger] ka.contains(x) <==> kb.contains(x) by {
        if ka.contains(x) {
            let k = ka.index_of(x);
            let m = a[order_a[k] as int];
            assert(b.contains(m));
            let j = b.index_of(m);
            lemma_order_reaches(order_b, b.len() as int, j);
            let p = choose|p: int| 0 <= p < order_b.len() && #[trigger] order_b[p] == j;
            assert(kb[p] == x);
        }
        if kb.contains(x) {
            let k = kb.index_of(x);
            let m = b[order_b[k] as int];
            assert(a.contains(m));
            let j = a.index_of(m);
            lemma_order_reaches(order_a, a.len() as int, j);
            let p = choose|p: int| 0 <= p < order_a.len() && #[trigger] order_a[p] == j;
            assert(ka[p] == x);
        }
    }
    lemma_increasing_unique(ka, kb);
    let (sa, sb) = (arranged(a, order_a), arranged(b, order_b));
    assert forall|k: int| 0 <= k < sa.len() implies #[trigger] sa[k] == sb[k] by {
        let ma = a[order_a[k] as int];
        let mb = b[order_b[k] as int];
        assert(ka[k] == kb[k]);
        assert(b.contains(ma));
        let j = b.index_of(ma);
        assert(b[j].id == b[order_b[k] as int].id);
        assert(j == order_b[k]);
    }
    assert(sa =~= sb);
}

proof fn lemma_keys_increase(a: Seq<Member>, order: Seq<usize>)
    requires
        is_order(order, a.len() as int),
        ascending(order, a.map_values(|m: Member| m.id)),
        forall|i: int, j: int|
            0 <= i < a.len() && 0 <= j < a.len() && #[trigger] a[i].id == #[trigger] a[j].id ==> i
                == j,
    ensures
        increasing(order.map_values(|i: usize| a[i as int].id)),
{
    let keys = order.map_values(|i: usize| a[i as int].id);
    assert forall|j: int, k: int| 0 <= j < k < keys.len() implies #[trigger] keys[j]
        < #[trigger] keys[k] by {
        let (p, q) = (order[j] as int, order[k] as int);
        assert(a.map_values(|m: Member| m.id)[p] <= a.map_values(|m: Member| m.id)[q]);
        assert(p != q);
        assert(a[p].id != a[q].id);
    }
}

/// An order of `n` indices reaches each of them.
proof fn lemma_order_reaches(order: Seq<usize>, n: int, j: int)
    requires
        is_order(order, n),
        0 <= j < n,
    ensures
        exists|p: int| 0 <= p < order.len() && #[trigger] order[p] == j,
{
    let ints = order.map_values(|i: usize| i as int);
    assert(ints.no_duplicates()) by {
        assert forall|p: int, q: int| 0 <= p < ints.len() && 0 <= q < ints.len() && p != q implies ints[p]
            != ints[q] by {
            assert(order[p] != order[q]);
        }
    }
    ints.unique_seq_to_set();
    let range = vstd::set_lib::set_int_range(0, n);
    vstd::set_lib::lemma_int_range(0, n);
    assert(ints.to_set().subset_of(range)) by {
        assert forall|x: int| ints.to_set().contains(x) implies range.contains(x) by {
            let p = ints.index_of(x);
            assert(order[p] < n);
        }
    }
    vstd::set_lib::lemma_subset_equality(ints.to_set(), range);
    assert(ints.to_set().contains(j));
    let p = ints.index_of(j);
    assert(order[p] == j);
}

/// However far the stick is pushed, no more than full deflection is flown.
pub proof fn law_stick_is_clamped(s: Stick)
    ensures
        ({
            let c = Point { x: s.x as i64, y: s.y as i64, z: 0 }.clamped(FULL_STICK as int);
            clamp_stick(s).x == c.x && clamp_stick(s).y == c.y
        }),
        clamp_stick(s).x * clamp_stick(s).x + clamp_stick(s).y * clamp_stick(s).y <= FULL_STICK
            * FULL_STICK,
{
    let p = Point { x: s.x as i64, y: s.y as i64, z: 0 };
    let c = p.clamped(FULL_STICK as int);
    law_clamped_is_short(p, FULL_STICK as u64);
    assert(FULL_STICK * FULL_STICK == 1_000_000_000_000) by (nonlinear_arith);
    assert(c.z * c.z >= 0) by (nonlinear_arith);
    assert(c.x * c.x >= 0) by (nonlinear_arith);
    assert(c.y * c.y >= 0) by (nonlinear_arith);
    assert(-1_000_000 <= c.x <= 1_000_000) by (nonlinear_arith)
        requires
            c.x * c.x <= 1_000_000_000_000,
    ;
    assert(-1_000_000 <= c.y <= 1_000_000) by (nonlinear_arith)
        requires
            c.y * c.y <= 1_000_000_000_000,
    ;
}

// ---- What a tick keeps and who takes part --------------------------------------------

/// Fuel adds up over the ticks of a launch, the plan that was flown first stays, and the engines
/// are cut as the tick says. What is read off the flight is published as long as anything with
/// mass flies.
pub proof fn law_a_tick_adds_up(latch: ThrustLatch, flown: Flown)
    ensures
        ({
            let after = after_burn(latch, flown);
            &&& latch.fuel + flown.fuel <= u64::MAX ==> after.fuel - latch.fuel == flown.fuel
            &&& latch.fuel + flown.fuel > u64::MAX ==> after.fuel == u64::MAX
            &&& latch.plan is Some ==> after.plan == latch.plan
            &&& latch.plan is None ==> after.plan == Some(flown.plan)
            &&& after.cut == flown.cut
            &&& flown.mass > 0 ==> after.apparent == Some(flown.apparent) && after.autopilot
                == Some(flown.snapshot)
            &&& flown.mass == 0 ==> after.apparent is None && after.autopilot is None
        }),
        at_rest().fuel == 0,
        at_rest().plan is None,
        !at_rest().cut,
        at_rest().apparent is None,
        at_rest().autopilot is None,
{
}

/// One more member adds its own mass, and so does one more rider.
pub proof fn law_masses_add_up(members: Seq<Member>, m: Member, riders: Seq<Rider>, r: Rider)
    ensures
        member_mass(members.push(m)) - member_mass(members) == m.mass,
        rider_mass(riders.push(r)) - rider_mass(riders) == r.mass,
        member_mass(Seq::empty()) == 0,
        rider_mass(Seq::empty()) == 0,
{
    assert(members.push(m).drop_last() == members);
    assert(riders.push(r).drop_last() == riders);
}

/// The rockets burn in the members' order: one more member that is a rocket comes last, and one
/// that is none does not burn.
pub proof fn law_rockets_burn_in_order(members: Seq<Member>, m: Member)
    ensures
        m.rocket ==> rockets_of(members.push(m)) == rockets_of(members).push(m.entity),
        !m.rocket ==> rockets_of(members.push(m)) == rockets_of(members),
        rockets_of(Seq::empty()) == Seq::<u64>::empty(),
{
    assert(members.push(m).drop_last() == members);
}

/// The integral and the cutoff are those of the first member that carries one: later members do
/// not change them.
pub proof fn law_the_first_member_carries_the_state(members: Seq<Member>, m: Member)
    ensures
        first_integral(members) is Some ==> first_integral(members.push(m)) == first_integral(
            members,
        ),
        first_integral(members) is None ==> first_integral(members.push(m)) == m.integral,
        first_cut(members) is Some ==> first_cut(members.push(m)) == first_cut(members),
        first_cut(members) is None ==> first_cut(members.push(m)) == m.cut,
        first_integral(Seq::empty()) is None,
        first_cut(Seq::empty()) is None,
{
    assert(members.push(m).drop_last() == members);
}

/// Members that are arranged by their ids come from the smallest to the largest, and each of them
/// once.
pub proof fn law_members_come_by_id(members: Seq<Member>, order: Seq<usize>, i: int, j: int)
    requires
        is_order(order, members.len() as int),
        ascending(order, members.map_values(|m: Member| m.id)),
        0 <= i < j < order.len(),
    ensures
        arranged(members, order).len() == members.len(),
        arranged(members, order)[i].id <= arranged(members, order)[j].id,
        arranged(members, order)[i] == members[order[i] as int],
        order[i] != order[j],
{
    let keys = members.map_values(|m: Member| m.id);
    assert(keys[order[i] as int] <= keys[order[j] as int]);
}

/// The box around the craft is no larger than it has to be: on each of its six sides lies a part.
pub proof fn law_the_box_is_tight(points: Seq<Point>)
    requires
        points.len() > 0,
    ensures
        exists|i: int| 0 <= i < points.len() && (#[trigger] points[i]).x == low_corner(points).x,
        exists|i: int| 0 <= i < points.len() && (#[trigger] points[i]).y == low_corner(points).y,
        exists|i: int| 0 <= i < points.len() && (#[trigger] points[i]).z == low_corner(points).z,
        exists|i: int| 0 <= i < points.len() && (#[trigger] points[i]).x == high_corner(points).x,
        exists|i: int| 0 <= i < points.len() && (#[trigger] points[i]).y == high_corner(points).y,
        exists|i: int| 0 <= i < points.len() && (#[trigger] points[i]).z == high_corner(points).z,
    decreases points.len(),
{
    if points.len() > 1 {
        let front = points.drop_last();
        law_the_box_is_tight(front);
        let last = points.len() - 1;
        assert(points[last] == points.last());
        assert forall|i: int| 0 <= i < front.len() implies #[trigger] front[i] == points[i] by {}
        let (a, b) = (low_corner(front), high_corner(front));
        let i1 = choose|i: int| 0 <= i < front.len() && (#[trigger] front[i]).x == a.x;
        let i2 = choose|i: int| 0 <= i < front.len() && (#[trigger] front[i]).y == a.y;
        let i3 = choose|i: int| 0 <= i < front.len() && (#[trigger] front[i]).z == a.z;
        let i4 = choose|i: int| 0 <= i < front.len() && (#[trigger] front[i]).x == b.x;
        let i5 = choose|i: int| 0 <= i < front.len() && (#[trigger] front[i]).y == b.y;
        let i6 = choose|i: int| 0 <= i < front.len() && (#[trigger] front[i]).z == b.z;
        assert(points[i1] == front[i1] && points[i2] == front[i2] && points[i3] == front[i3]);
        assert(points[i4] == front[i4] && points[i5] == front[i5] && points[i6] == front[i6]);
    } else {
        assert(points[0] == low_corner(points));
        assert(points[0] == high_corner(points));
    }
}

/// A craft is as large as half the diagonal of its box, to the micrometre; one without a part has
/// no size.
pub proof fn law_the_spread_is_half_the_diagonal(points: Seq<Point>)
    requires
        points.len() > 0,
    ensures
        ({
            let (a, b) = (low_corner(points), high_corner(points));
            let (x, y, z) = (b.x - a.x, b.y - a.y, b.z - a.z);
            let r = spread_of(points);
            &&& (2 * r) * (2 * r) <= x * x + y * y + z * z < (2 * r + 2) * (2 * r + 2)
            &&& 0 <= r
        }),
        spread_of(Seq::empty()) == 0,
{
    let (a, b) = (low_corner(points), high_corner(points));
    crate::geom::law_distance_is_by_axes(b, a);
    crate::geom::law_distance_is_by_axes(a, b);
    let d = a.dist(b) as int;
    let r = spread_of(points);
    assert(2 * r <= d <= 2 * r + 1);
    assert((2 * r) * (2 * r) <= d * d) by (nonlinear_arith)
        requires
            0 <= 2 * r <= d,
    ;
    assert((d + 1) * (d + 1) <= (2 * r + 2) * (2 * r + 2)) by (nonlinear_arith)
        requires
            0 <= d + 1 <= 2 * r + 2,
    ;
}

/// The pilot flies by their own hands and everybody else by what the server has seen of the
/// pilot; with nobody at the controls the flight is steered as replicated, and hands that are
/// off the stick leave it centred.
pub proof fn law_the_pilot_flies_by_hand(launch: NetLaunch, id: u64, own: Stick, any: Option<Stick>)
    ensures
        launch.pilot == id && id != 0 ==> raw_stick(launch, Some(id), Some(own)) == own,
        launch.pilot == id && id != 0 ==> raw_stick(launch, Some(id), None) == (Stick {
            x: 0,
            y: 0,
        }),
        launch.pilot != id ==> raw_stick(launch, Some(id), any) == launch.steer,
        launch.pilot == 0 ==> raw_stick(launch, Some(id), any) == launch.steer,
        raw_stick(launch, None, any) == launch.steer,
{
}

/// A stick within full deflection is flown as it is; one that is pushed further is flown at full
/// deflection the same way: `d` is how far it is pushed, rounded up.
pub proof fn law_the_stick_keeps_its_direction(s: Stick, d: int)
    requires
        1 <= d,
        (d - 1) * (d - 1) < s.x * s.x + s.y * s.y <= d * d,
    ensures
        ({
            let c = clamp_stick(s);
            &&& s.x * s.x + s.y * s.y <= 1_000_000 * 1_000_000 ==> c == s
            &&& s.x * s.x + s.y * s.y > 1_000_000 * 1_000_000 ==> {
                &&& s.x >= 0 ==> d * c.x <= 1_000_000 * s.x < d * c.x + d
                &&& s.y >= 0 ==> d * c.y <= 1_000_000 * s.y < d * c.y + d
                &&& s.x <= 0 ==> d * c.x - d < 1_000_000 * s.x <= d * c.x
                &&& s.y <= 0 ==> d * c.y - d < 1_000_000 * s.y <= d * c.y
            }
        }),
{
    let p = Point { x: s.x as i64, y: s.y as i64, z: 0 };
    assert(0int * 0 == 0);
    law_stick_is_clamped(s);
    crate::geom::law_clamping_keeps_the_direction(p, 1_000_000, d);
}

} // verus!
