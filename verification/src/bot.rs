//! The headless test client: a player without a screen that joins a room, rides a rocket
//! and leaves.
//!
//! Times are in nanoseconds, lengths in micrometres, and ratios in millionths.

use vstd::prelude::*;
use vstd::string::*;
use crate::buoyancy::hydro::Heading;
use crate::client::net::{multiplayer_room, my_netcode_id, PeerId};
use crate::client::net::room_byte;
use crate::geom::{floor_div, integer_sqrt, Point};
use crate::geom::{floor_sqrt, lemma_product_bound, LOCAL_LIMIT, SPAN_LIMIT};
use crate::lists::{lemma_pick_none, lemma_pick_step, pick};
use crate::text::{parse_number, parsed};

verus! {

/// Ticks for which the rider stands at the middle of the platform before it counts as
/// aboard.
pub const BOARD_SETTLE_TICKS: u32 = 60;

// ---- The script ----------------------------------------------------------------------

/// What the environment says of the run. A flag is set by being there at all.
pub struct BotEnv {
    pub connect: Option<String>,
    pub room: Option<String>,
    /// Seconds that spelled a number, in nanoseconds.
    pub launch_secs: Option<i64>,
    pub lock_secs: Option<i64>,
    pub reset_secs: Option<i64>,
    pub run_secs: Option<i64>,
    pub ride: bool,
    pub wander: bool,
    pub jumpy: bool,
    pub resume_id: Option<String>,
}

/// The script of a run.
pub struct BotConfig {
    pub server: String,
    pub room: [u8; 6],
    pub launch_after: Option<u64>,
    pub lock_after: Option<u64>,
    pub reset_after: Option<u64>,
    pub run_for: Option<u64>,
    pub ride: bool,
    pub wander: bool,
    pub jumpy: bool,
    pub resume_id: u64,
}

/// A delay that is not negative.
pub open spec fn delay(secs: Option<i64>) -> Option<u64> {
    match secs {
        Some(s) if s >= 0 => Some(s as u64),
        _ => None,
    }
}

/// A time to run that is positive.
pub open spec fn run_time(secs: Option<i64>) -> Option<u64> {
    match secs {
        Some(s) if s > 0 => Some(s as u64),
        _ => None,
    }
}

fn delay_of(secs: Option<i64>) -> (d: Option<u64>)
    ensures
        d == delay(secs),
{
    match secs {
        Some(s) => if s >= 0 {
            Some(s as u64)
        } else {
            None
        },
        None => None,
    }
}

impl BotConfig {
    /// Reads the script from the environment.
    pub fn from_env(env: &BotEnv) -> (config: BotConfig)
        ensures
            config.server@ == match env.connect {
                Some(server) => server@,
                None => "127.0.0.1:5001"@,
            },
            match env.room {
                Some(code) => forall|i: int|
                    0 <= i < 6 ==> #[trigger] config.room@[i] == room_byte(
                        vstd::utf8::encode_utf8(code@),
                        i,
                    ),
                None => forall|i: int| 0 <= i < 6 ==> #[trigger] config.room@[i] == 0,
            },
            config.launch_after == delay(env.launch_secs),
            config.lock_after == delay(env.lock_secs),
            config.reset_after == delay(env.reset_secs),
            config.run_for == run_time(env.run_secs),
            config.ride == env.ride,
            config.wander == env.wander,
            config.jumpy == env.jumpy,
            config.resume_id == match env.resume_id {
                Some(id) => match parsed(id@) {
                    Some(n) => n,
                    None => 0,
                },
                None => 0,
            },
    {
        let server: String = match &env.connect {
            Some(server) => String::from_str(server.as_str()),
            None => String::from_str("127.0.0.1:5001"),
        };
        let room: [u8; 6] = multiplayer_room(&env.room);
        let run_for: Option<u64> = match env.run_secs {
            Some(s) => if s > 0 {
                Some(s as u64)
            } else {
                None
            },
            None => None,
        };
        let resume_id: u64 = match &env.resume_id {
            Some(id) => match parse_number(id.as_str()) {
                Some(n) => n,
                None => 0,
            },
            None => 0,
        };
        BotConfig {
            server,
            room,
            launch_after: delay_of(env.launch_secs),
            lock_after: delay_of(env.lock_secs),
            reset_after: delay_of(env.reset_secs),
            run_for,
            ride: env.ride,
            wander: env.wander,
            jumpy: env.jumpy,
            resume_id,
        }
    }
}

// ---- One-shot messages ---------------------------------------------------------------

/// Whether a scripted message is due: its delay has passed, it was not sent, and in ride
/// mode the rider is aboard.
pub open spec fn due(after: Option<u64>, elapsed: u64, waits: bool, boarded: u32, sent: bool) -> bool {
    &&& after matches Some(t) && elapsed >= t
    &&& !sent
    &&& !(waits && boarded < BOARD_SETTLE_TICKS)
}

/// Over how many of the open connections a scripted message goes. It is sent once there
/// was one.
fn send_once(
    after: Option<u64>,
    elapsed: u64,
    waits: bool,
    boarded: u32,
    sent: &mut bool,
    connections: usize,
) -> (n: usize)
    ensures
        n == if due(after, elapsed, waits, boarded, *old(sent)) {
            connections
        } else {
            0
        },
        *final(sent) == (*old(sent) || n > 0),
{
    match after {
        None => 0,
        Some(t) => {
            if *sent || elapsed < t || (waits && boarded < BOARD_SETTLE_TICKS) {
                return 0;
            }
            if connections > 0 {
                *sent = true;
            }
            connections
        },
    }
}

/// Over how many of the open connections the launch is requested now. In ride mode it
/// waits until the rider is aboard.
pub fn send_launch(
    config: &BotConfig,
    elapsed: u64,
    boarded: u32,
    sent: &mut bool,
    connections: usize,
) -> (n: usize)
    ensures
        n == if due(config.launch_after, elapsed, config.ride, boarded, *old(sent)) {
            connections
        } else {
            0
        },
        *final(sent) == (*old(sent) || n > 0),
{
    send_once(config.launch_after, elapsed, config.ride, boarded, sent, connections)
}

/// Over how many of the open connections the lock is requested now. A launch is granted
/// only once every player is locked, so a ride locks first.
pub fn send_lock(
    config: &BotConfig,
    elapsed: u64,
    boarded: u32,
    sent: &mut bool,
    connections: usize,
) -> (n: usize)
    ensures
        n == if due(config.lock_after, elapsed, config.ride, boarded, *old(sent)) {
            connections
        } else {
            0
        },
        *final(sent) == (*old(sent) || n > 0),
{
    send_once(config.lock_after, elapsed, config.ride, boarded, sent, connections)
}

/// Over how many of the open connections the reset of the room is requested now.
pub fn send_reset(config: &BotConfig, elapsed: u64, sent: &mut bool, connections: usize) -> (n: usize)
    ensures
        n == if due(config.reset_after, elapsed, false, 0, *old(sent)) {
            connections
        } else {
            0
        },
        *final(sent) == (*old(sent) || n > 0),
{
    send_once(config.reset_after, elapsed, false, 0, sent, connections)
}

/// Whether the run is over.
pub fn exit_when_done(config: &BotConfig, elapsed: u64) -> (done: bool)
    ensures
        done == (config.run_for matches Some(t) && elapsed >= t),
{
    match config.run_for {
        Some(t) => elapsed >= t,
        None => false,
    }
}

/// A message that was sent is never sent again, and in ride mode none is sent before the
/// rider is aboard.
pub proof fn law_messages_are_sent_once(
    after: Option<u64>,
    elapsed: u64,
    waits: bool,
    boarded: u32,
    sent: bool,
)
    ensures
        sent ==> !due(after, elapsed, waits, boarded, sent),
        waits && boarded < BOARD_SETTLE_TICKS ==> !due(after, elapsed, waits, boarded, sent),
        after is None ==> !due(after, elapsed, waits, boarded, sent),
{
}

// ---- The platform --------------------------------------------------------------------

/// A replicated part: where it is, and half its width along x and z if it is a block.
#[derive(Clone, Copy, Debug, PartialEq, Eq, Structural)]
pub struct SeenPart {
    pub at: Point,
    pub block: Option<Footprint>,
}

/// Half the width of a block along x and z.
#[derive(Clone, Copy, Debug, PartialEq, Eq, Structural)]
pub struct Footprint {
    pub half_x: u32,
    pub half_z: u32,
}

impl Footprint {
    pub open spec fn area(self) -> nat {
        (self.half_x * self.half_z) as nat
    }
}

/// The platform: where it is, and its footprint.
#[derive(Clone, Copy, Debug, PartialEq, Eq, Structural)]
pub struct Deck {
    pub at: Point,
    pub size: Footprint,
}

/// Whether part `k` is the platform: a block with the largest footprint, and the last of
/// those.
pub open spec fn is_platform(parts: Seq<SeenPart>, k: int) -> bool {
    &&& 0 <= k < parts.len()
    &&& parts[k].block is Some
    &&& forall|i: int|
        0 <= i < parts.len() && (#[trigger] parts[i]).block is Some ==> {
            &&& parts[i].block->0.area() <= parts[k].block->0.area()
            &&& i > k ==> parts[i].block->0.area() < parts[k].block->0.area()
        }
}

/// The platform: the block with the largest footprint, which dwarfs the step and any loose
/// cube. Rockets and rocks are no decks.
pub fn platform_xz(parts: &[SeenPart]) -> (deck: Option<Deck>)
    ensures
        deck is None <==> forall|i: int|
            0 <= i < parts.len() ==> (#[trigger] parts[i]).block is None,
        deck matches Some(d) ==> exists|k: int|
            #[trigger] is_platform(parts@, k) && d.at == parts[k].at && Some(d.size)
                == parts[k].block,
{
    let mut best: Option<usize> = None;
    let mut area: u64 = 0;
    let mut i: usize = 0;
    while i < parts.len()
        invariant
            i <= parts.len(),
            best is None ==> forall|m: int|
                0 <= m < i ==> (#[trigger] parts[m]).block is None,
            best matches Some(k) ==> {
                &&& k < i
                &&& parts[k as int].block is Some
                &&& area == parts[k as int].block->0.area()
                &&& forall|m: int|
                    0 <= m < i && (#[trigger] parts[m]).block is Some ==> {
                        &&& parts[m].block->0.area() <= area
                        &&& m > k ==> parts[m].block->0.area() < area
                    }
            },
        decreases parts.len() - i,
    {
        if let Some(size) = parts[i].block {
            assert(size.half_x * size.half_z <= 0xffff_ffff * 0xffff_ffff) by (nonlinear_arith)
                requires
                    0 <= size.half_x <= 0xffff_ffff,
                    0 <= size.half_z <= 0xffff_ffff,
            ;
            assert(0 <= size.half_x * size.half_z) by (nonlinear_arith)
                requires
                    0 <= size.half_x,
                    0 <= size.half_z,
            ;
            let a: u64 = size.half_x as u64 * size.half_z as u64;
            if best.is_none() || a >= area {
                best = Some(i);
                area = a;
            }
        }
        i = i + 1;
    }
    match best {
        None => None,
        Some(k) => {
            assert(is_platform(parts@, k as int));
            match parts[k].block {
                Some(size) => Some(Deck { at: parts[k].at, size }),
                None => None,
            }
        },
    }
}

// ---- The autopilot -------------------------------------------------------------------

/// A step to take: the direction over the ground, in millionths, and how fast.
#[derive(Clone, Copy, Debug, PartialEq, Eq, Structural)]
pub struct Stride {
    /// Its height is nothing.
    pub dir: Point,
    pub throttle: u64,
}

/// What the autopilot presses.
#[derive(Clone, Copy, Debug, PartialEq, Eq, Structural)]
pub struct BotInput {
    pub stride: Option<Stride>,
    pub jump: bool,
}

/// The way over the ground from `from` to `to`.
pub open spec fn ground_way(from: Point, to: Point) -> Point {
    Point { x: (to.x - from.x) as i64, y: 0, z: (to.z - from.z) as i64 }
}

/// The length of a way over the ground, rounded down.
pub open spec fn ground_length(way: Point) -> int {
    floor_sqrt(way.len2() as nat) as int
}

pub open spec fn held(v: int, low: int, high: int) -> int {
    if v < low {
        low
    } else if v > high {
        high
    } else {
        v
    }
}

/// How far from its middle a stroll goes on a deck: a step inside its short half, and no
/// farther than the deck was made for.
pub open spec fn stroll_edge(size: Footprint) -> int {
    let short = if size.half_x <= size.half_z {
        size.half_x
    } else {
        size.half_z
    };
    held(short - 450_000, 150_000, 900_000)
}

/// The radius of a waypoint: halfway out and at the edge, in turn.
pub open spec fn stroll_radius(phase: int, edge: int) -> int {
    if phase % 2 == 0 {
        if edge / 2 < 400_000 {
            edge / 2
        } else {
            400_000
        }
    } else {
        edge
    }
}

/// The waypoint at `radius` from the middle of the deck.
pub open spec fn waypoint(deck: Deck, radius: int, heading: Heading) -> Point {
    Point {
        x: (deck.at.x + (radius * heading.cos) / 1_000_000) as i64,
        y: 0,
        z: (deck.at.z + (radius * heading.sin) / 1_000_000) as i64,
    }
}

/// How near the middle of the deck the rider must be to jump.
pub open spec fn hop_radius(edge: int) -> int {
    if (edge * 4) / 5 < 700_000 {
        (edge * 4) / 5
    } else {
        700_000
    }
}

/// What a rider who cannot stand still presses on tick `tick` of the stroll.
pub open spec fn strolling(
    jumpy: bool,
    tick: int,
    at: Point,
    deck: Deck,
    heading: Heading,
) -> BotInput {
    let edge = stroll_edge(deck.size);
    let way = ground_way(at, waypoint(deck, stroll_radius(tick / 90, edge), heading));
    let near = ground_way(deck.at, at).len2() < hop_radius(edge) * hop_radius(edge);
    BotInput {
        stride: if way.len2() > 200_000 * 200_000 {
            Some(
                Stride {
                    dir: way.direction(),
                    throttle: held((ground_length(way) * 3) / 2, 200_000, 600_000) as u64,
                },
            )
        } else {
            None
        },
        jump: jumpy && near && tick % 270 < 8,
    }
}

/// Where the rider goes next on the way aboard: to the step from the ground, and from the
/// step across to the platform.
pub open spec fn boarding_target(y: int) -> Point {
    if y > -300_000 {
        Point { x: 0, y: 0, z: 0 }
    } else {
        Point { x: 3_400_000, y: 0, z: 0 }
    }
}

/// Whether the rider stands at the middle of the platform.
pub open spec fn centred(at: Point) -> bool {
    at.y > 1_900_000 && ground_way(at, boarding_target(at.y as int)).len2() < 450_000 * 450_000
}

/// The direction of a step on the way aboard. On the ground it bends around the pad: a
/// rider who shoves a rocket topples it.
pub open spec fn boarding_direction(at: Point) -> Point {
    let way = ground_way(at, boarding_target(at.y as int));
    let out = Point { x: at.x, y: 0, z: at.z };
    if at.y <= -300_000 && way.len2() > 1_500_000 * 1_500_000 && out.len2() < 3_600_000 * 3_600_000 {
        Point {
            x: (way.direction().x + (out.direction().x * 14) / 10) as i64,
            y: 0,
            z: (way.direction().z + (out.direction().z * 14) / 10) as i64,
        }.unit()
    } else {
        way.direction()
    }
}

/// What the rider presses on the way aboard. It hops wherever it has to climb: onto the
/// step, and from the step onto the platform.
pub open spec fn boarding(at: Point) -> BotInput {
    if centred(at) {
        BotInput { stride: None, jump: false }
    } else {
        let way = ground_way(at, boarding_target(at.y as int));
        BotInput {
            stride: Some(
                Stride {
                    dir: boarding_direction(at),
                    throttle: held(ground_length(way) / 2, 200_000, 1_000_000) as u64,
                },
            ),
            jump: (at.y <= -300_000 && way.len2() < 2_200_000 * 2_200_000) || (-300_000 <= at.y
                < 1_900_000),
        }
    }
}

/// Whether the rider is aboard.
pub open spec fn aboard(boarded: u32) -> bool {
    boarded >= BOARD_SETTLE_TICKS
}

fn way_over_ground(from: &Point, to: &Point) -> (way: Point)
    requires
        from.within(LOCAL_LIMIT + 3_400_000),
        to.within(LOCAL_LIMIT + 3_400_000),
    ensures
        way == ground_way(*from, *to),
        way.within(SPAN_LIMIT as int),
{
    Point { x: to.x - from.x, y: 0, z: to.z - from.z }
}

fn hold_between(v: i64, low: i64, high: i64) -> (r: i64)
    requires
        low <= high,
    ensures
        r == held(v as int, low as int, high as int),
{
    if v < low {
        low
    } else if v > high {
        high
    } else {
        v
    }
}

fn scaled_heading(radius: i64, part: i64) -> (r: i64)
    requires
        0 <= radius <= 900_000,
        -1_000_000 <= part <= 1_000_000,
    ensures
        r == (radius * part) / 1_000_000,
        -900_000 <= r <= 900_000,
{
    proof {
        lemma_product_bound(radius as int, part as int, 900_000, 1_000_000);
    }
    floor_div(radius as i128 * part as i128, 1_000_000) as i64
}

/// What a rider who cannot stand still presses.
fn stroll(jumpy: bool, tick: u32, at: &Point, deck: &Deck, heading: &Heading) -> (input: BotInput)
    requires
        at.is_local(),
        deck.at.is_local(),
        heading.valid(),
    ensures
        input == strolling(jumpy, tick as int, *at, *deck, *heading),
{
    let short: u32 = if deck.size.half_x <= deck.size.half_z {
        deck.size.half_x
    } else {
        deck.size.half_z
    };
    let edge: i64 = hold_between(short as i64 - 450_000, 150_000, 900_000);
    let phase: u32 = tick / 90;
    let radius: i64 = if phase % 2 == 0 {
        if edge / 2 < 400_000 {
            edge / 2
        } else {
            400_000
        }
    } else {
        edge
    };
    let target: Point = Point {
        x: deck.at.x + scaled_heading(radius, heading.cos),
        y: 0,
        z: deck.at.z + scaled_heading(radius, heading.sin),
    };
    let way: Point = way_over_ground(at, &target);
    let square: u128 = way.span_squared();
    let stride: Option<Stride> = if square > 40_000_000_000 {
        let length: u64 = integer_sqrt(square);
        let wanted: i64 = (length * 3 / 2) as i64;
        Some(
            Stride {
                dir: way.direction_or_zero(),
                throttle: hold_between(wanted, 200_000, 600_000) as u64,
            },
        )
    } else {
        None
    };
    let hop: i64 = if edge * 4 / 5 < 700_000 {
        edge * 4 / 5
    } else {
        700_000
    };
    let off: Point = way_over_ground(&deck.at, at);
    assert(0 <= hop * hop <= 490_000_000_000) by (nonlinear_arith)
        requires
            0 <= hop <= 700_000,
    ;
    let near: bool = off.span_squared() < (hop * hop) as u128;
    BotInput { stride, jump: jumpy && near && tick % 270 < 8 }
}

/// The direction of a step on the way aboard.
fn direction_aboard(at: &Point, way: &Point) -> (dir: Point)
    requires
        at.is_local(),
        *way == ground_way(*at, boarding_target(at.y as int)),
        way.within(SPAN_LIMIT as int),
    ensures
        dir == boarding_direction(*at),
{
    let straight: Point = way.direction_or_zero();
    let out: Point = Point { x: at.x, y: 0, z: at.z };
    if at.y <= -300_000 && way.span_squared() > 2_250_000_000_000 && out.length_squared()
        < 12_960_000_000_000 {
        let away: Point = out.direction_or_zero();
        let bent: Point = Point {
            x: straight.x + floor_div(away.x as i128 * 14, 10) as i64,
            y: 0,
            z: straight.z + floor_div(away.z as i128 * 14, 10) as i64,
        };
        bent.normalize_or_zero()
    } else {
        straight
    }
}

/// What the rider presses on the way aboard, and whether it stands where it should.
fn board(at: &Point) -> (r: (BotInput, bool))
    requires
        at.is_local(),
    ensures
        r.0 == boarding(*at),
        r.1 == centred(*at),
{
    let on_platform: bool = at.y > 1_900_000;
    let target: Point = if at.y > -300_000 {
        Point::zero()
    } else {
        Point { x: 3_400_000, y: 0, z: 0 }
    };
    let way: Point = way_over_ground(at, &target);
    let square: u128 = way.span_squared();
    if on_platform && square < 202_500_000_000 {
        return (BotInput { stride: None, jump: false }, true);
    }
    let length: u64 = integer_sqrt(square);
    let dir: Point = direction_aboard(at, &way);
    let throttle: u64 = hold_between((length / 2) as i64, 200_000, 1_000_000) as u64;
    let jump: bool = (at.y <= -300_000 && square < 4_840_000_000_000) || (-300_000 <= at.y && at.y
        < 1_900_000);
    (BotInput { stride: Some(Stride { dir, throttle }), jump }, false)
}

/// One tick of the autopilot: on the way aboard, it walks to the step, hops on, jumps
/// across to the platform and stands at its middle; aboard, it stands still, or strolls
/// about if the script says so. `heading` is the direction of the stroll's next waypoint.
pub fn write_input(
    config: &BotConfig,
    boarded: &mut u32,
    wander_tick: &mut u32,
    at: Option<Point>,
    deck: Option<Deck>,
    heading: &Heading,
) -> (input: BotInput)
    requires
        at matches Some(p) ==> p.is_local(),
        deck matches Some(d) ==> d.at.is_local(),
        heading.valid(),
        *old(wander_tick) < u32::MAX,
    ensures
        ({
            let strolls = config.ride && config.wander && aboard(*old(boarded)) && at is Some
                && deck is Some;
            let boards = config.ride && !aboard(*old(boarded)) && at is Some;
            &&& *final(wander_tick) == *old(wander_tick) + (if strolls {
                1int
            } else {
                0
            })
            &&& *final(boarded) == *old(boarded) + (if boards && centred(at->0) {
                1int
            } else {
                0
            })
            &&& input == if strolls {
                strolling(config.jumpy, *old(wander_tick) + 1, at->0, deck->0, *heading)
            } else if boards {
                boarding(at->0)
            } else {
                BotInput { stride: None, jump: false }
            }
        }),
{
    if config.ride && config.wander && *boarded >= BOARD_SETTLE_TICKS {
        if let (Some(p), Some(d)) = (at, deck) {
            *wander_tick = *wander_tick + 1;
            return stroll(config.jumpy, *wander_tick, &p, &d, heading);
        }
    } else if config.ride && *boarded < BOARD_SETTLE_TICKS {
        if let Some(p) = at {
            let r: (BotInput, bool) = board(&p);
            if r.1 {
                *boarded = *boarded + 1;
            }
            return r.0;
        }
    }
    BotInput { stride: None, jump: false }
}

/// The phase of the stroll that the next tick belongs to; its waypoint's direction is that
/// many golden angles around.
pub fn next_phase(wander_tick: u32) -> (phase: u32)
    requires
        wander_tick < u32::MAX,
    ensures
        phase == (wander_tick + 1) / 90,
{
    (wander_tick + 1) / 90
}

/// The stroll never aims off the deck: a waypoint stays a step inside the shorter half of
/// any deck on which there is room for one.
pub proof fn law_the_stroll_stays_on_deck(size: Footprint, phase: int)
    requires
        size.half_x >= 600_000,
        size.half_z >= 600_000,
    ensures
        0 < stroll_radius(phase, stroll_edge(size)) <= size.half_x - 450_000,
        stroll_radius(phase, stroll_edge(size)) <= size.half_z - 450_000,
        stroll_radius(phase, stroll_edge(size)) <= 900_000,
{
}

/// The rider stands still at the middle of the platform, and is never told to move there.
pub proof fn law_the_rider_stands_once_centred(at: Point)
    requires
        centred(at),
    ensures
        boarding(at) == (BotInput { stride: None, jump: false }),
{
}

// ---- The session ---------------------------------------------------------------------

/// A replicated avatar that has no input yet.
#[derive(Clone, Copy, Debug, PartialEq, Eq, Structural)]
pub struct Avatar {
    pub entity: u64,
    pub client_id: u64,
}

/// The avatars that are ours to drive.
pub open spec fn own_avatars(new: Seq<Avatar>, me: u64) -> Seq<u64> {
    pick(new, |a: Avatar| a.client_id == me, |a: Avatar| a.entity)
}

/// The avatars to take over: those of our own client id, once we know it.
pub fn adopt_avatar(new: &[Avatar], local: Option<PeerId>) -> (own: Vec<u64>)
    ensures
        own@ == match local {
            Some(PeerId::Netcode(me)) => own_avatars(new@, me),
            _ => Seq::empty(),
        },
{
    let mut own: Vec<u64> = Vec::new();
    let id: Option<u64> = my_netcode_id(local);
    let me: u64 = match id {
        Some(me) => me,
        None => {
            return own;
        },
    };
    let ghost p = |a: Avatar| a.client_id == me;
    let ghost f = |a: Avatar| a.entity;
    let mut i: usize = 0;
    proof {
        lemma_pick_none(new@, p, f);
    }
    while i < new.len()
        invariant
            i <= new.len(),
            p == (|a: Avatar| a.client_id == me),
            f == (|a: Avatar| a.entity),
            own@ == pick(new@.take(i as int), p, f),
        decreases new.len() - i,
    {
        proof {
            lemma_pick_step(new@, i as int, p, f);
        }
        if new[i].client_id == me {
            own.push(new[i].entity);
        }
        i = i + 1;
    }
    assert(new@.take(new.len() as int) =~= new@);
    own
}

/// What is reported of a blastoff, once each: that it is due by the schedule, and that the
/// server's flag has come.
#[derive(Clone, Copy, Debug, PartialEq, Eq, Structural)]
pub struct BlastoffTrace {
    pub due: bool,
    pub flag: bool,
}

/// Traces the blastoff: which of the two reports to print now. `launch` says whether it is
/// due by the schedule and whether the server's flag is set.
pub fn trace_blastoff_tick(
    launch: Option<BlastoffTrace>,
    reported: &mut BlastoffTrace,
) -> (print: BlastoffTrace)
    ensures
        print.due == (launch is Some && launch->0.due && !old(reported).due),
        print.flag == (launch is Some && launch->0.flag && !old(reported).flag),
        final(reported).due == (old(reported).due || print.due),
        final(reported).flag == (old(reported).flag || print.flag),
{
    match launch {
        None => BlastoffTrace { due: false, flag: false },
        Some(state) => {
            let print: BlastoffTrace = BlastoffTrace {
                due: state.due && !reported.due,
                flag: state.flag && !reported.flag,
            };
            reported.due = reported.due || print.due;
            reported.flag = reported.flag || print.flag;
            print
        },
    }
}

// ---- Accelerated runs ----------------------------------------------------------------

/// The clock speed to set, if any: the scale is put on top of the speed that the
/// synchronisation set. A speed of at least half the scale has it already.
pub fn apply_time_scale(scale: u32, current: u32) -> (speed: Option<u64>)
    ensures
        speed == if scale != 1_000_000 && 2 * current < scale {
            Some(((current * scale) / 1_000_000) as u64)
        } else {
            None
        },
{
    if scale != 1_000_000 && 2 * (current as u64) < scale as u64 {
        assert(0 <= current * scale <= 0xffff_ffff * 0xffff_ffff) by (nonlinear_arith)
            requires
                0 <= current <= 0xffff_ffff,
                0 <= scale <= 0xffff_ffff,
        ;
        Some((current as u64 * scale as u64) / 1_000_000)
    } else {
        None
    }
}

/// However often it is applied, the scale is put on the clock once, as long as the
/// synchronisation itself stays above half speed: a speed with the scale on it is left
/// alone.
pub proof fn law_the_scale_does_not_compound(scale: u32, current: u32)
    requires
        scale > 1_000_000,
        500_000 < current,
    ensures
        !(2 * ((current * scale) / 1_000_000) < scale),
{
    let product = current * scale;
    assert(product >= 500_001 * scale) by (nonlinear_arith)
        requires
            product == current * scale,
            500_001 <= current,
            scale >= 0,
    ;
}

/// The margins of the synchronisation, in millionths of a tick.
#[derive(Clone, Copy, Debug, PartialEq, Eq, Structural)]
pub struct SyncMargins {
    pub jitter: u64,
    pub error: u64,
    pub max_error: u64,
}

/// The margins of an accelerated run: they are counted in ticks, of which more pass in the
/// same time. `None` where the run is not accelerated.
pub fn sync_margins(scale: u32) -> (m: Option<SyncMargins>)
    ensures
        m == if scale > 1_000_000 {
            Some(
                SyncMargins {
                    jitter: ((scale * 3) / 2 + 1_000_000) as u64,
                    error: 2_000_000,
                    max_error: (2 * (if scale > 10_000_000 {
                        scale as int
                    } else {
                        10_000_000
                    })) as u64,
                },
            )
        } else {
            None
        },
{
    if scale > 1_000_000 {
        let s: u64 = scale as u64;
        Some(
            SyncMargins {
                jitter: s * 3 / 2 + 1_000_000,
                error: 2_000_000,
                max_error: 2 * (if s > 10_000_000 {
                    s
                } else {
                    10_000_000
                }),
            },
        )
    } else {
        None
    }
}

// ---- What the script promises --------------------------------------------------------

/// A delay is kept as it is unless it is negative, and a run must last at all.
pub proof fn law_times_are_kept(s: i64)
    ensures
        s >= 0 ==> delay(Some(s)) is Some && delay(Some(s))->0 == s,
        s < 0 ==> delay(Some(s)) is None,
        s > 0 ==> run_time(Some(s)) is Some && run_time(Some(s))->0 == s,
        s <= 0 ==> run_time(Some(s)) is None,
        delay(None) is None,
        run_time(None) is None,
{
}

/// A message that was not sent goes as soon as its delay has passed, and not before; a rider
/// only has to be aboard where the message waits for that.
pub proof fn law_messages_go_in_time(t: u64, elapsed: u64, waits: bool, boarded: u32)
    ensures
        elapsed >= t && boarded >= 60 ==> due(Some(t), elapsed, waits, boarded, false),
        elapsed >= t ==> due(Some(t), elapsed, false, boarded, false),
        elapsed < t ==> !due(Some(t), elapsed, waits, boarded, false),
{
}

/// The way over the ground leads from the one place to above or below the other.
pub proof fn law_the_way_leads_there(from: Point, to: Point)
    requires
        from.within(LOCAL_LIMIT + 3_400_000),
        to.within(LOCAL_LIMIT + 3_400_000),
    ensures
        from.x + ground_way(from, to).x == to.x,
        from.z + ground_way(from, to).z == to.z,
        ground_way(from, to).y == 0,
{
}

/// A footprint is as large as its two half sides make it: the wider of two blocks of one depth
/// is the larger.
pub proof fn law_footprints_go_by_both_sides(a: Footprint, b: Footprint)
    ensures
        a.half_x == b.half_x && a.half_z <= b.half_z ==> a.area() <= b.area(),
        a.half_z == b.half_z && a.half_x <= b.half_x ==> a.area() <= b.area(),
        a.half_x == b.half_z && a.half_z == b.half_x ==> a.area() == b.area(),
        a.half_z == 1 ==> a.area() == a.half_x,
{
    let (p, q, r, s) = (a.half_x as int, a.half_z as int, b.half_x as int, b.half_z as int);
    assert(p * q >= 0 && r * s >= 0) by (nonlinear_arith)
        requires
            p >= 0,
            q >= 0,
            r >= 0,
            s >= 0,
    ;
    assert(q <= s ==> p * q <= p * s) by (nonlinear_arith)
        requires
            p >= 0,
    ;
    assert(p <= r ==> p * s <= r * s) by (nonlinear_arith)
        requires
            s >= 0,
    ;
    assert(q * p == p * q) by (nonlinear_arith);
    assert(p * 1 == p);
}

/// The stroll keeps 45 centimetres from the nearer edge of a deck of middling size, between 15
/// and 90 centimetres from its middle on any.
pub proof fn law_the_stroll_keeps_from_the_edge(size: Footprint)
    ensures
        150_000 <= stroll_edge(size) <= 900_000,
        600_000 <= size.half_x <= 1_350_000 && size.half_x <= size.half_z ==> stroll_edge(size)
            == size.half_x - 450_000,
        600_000 <= size.half_z <= 1_350_000 && size.half_z <= size.half_x ==> stroll_edge(size)
            == size.half_z - 450_000,
        size.half_x >= 1_350_000 && size.half_z >= 1_350_000 ==> stroll_edge(size) == 900_000,
        size.half_x <= 600_000 || size.half_z <= 600_000 ==> stroll_edge(size) == 150_000,
{
}

/// Every second waypoint is at the edge; those between are halfway out, and no farther than 40
/// centimetres. A hop is made within four fifths of the edge and 70 centimetres of the middle.
pub proof fn law_waypoints_alternate(phase: int, edge: int)
    requires
        0 <= phase,
        150_000 <= edge <= 900_000,
    ensures
        phase % 2 == 1 ==> stroll_radius(phase, edge) == edge,
        phase % 2 == 0 && edge <= 800_000 ==> edge - 1 <= 2 * stroll_radius(phase, edge) <= edge,
        phase % 2 == 0 && edge >= 800_000 ==> stroll_radius(phase, edge) == 400_000,
        edge <= 875_000 ==> 4 * edge - 5 < 5 * hop_radius(edge) <= 4 * edge,
        edge >= 875_000 ==> hop_radius(edge) == 700_000,
{
}

/// A waypoint lies off the middle of the deck by its radius along its heading: the cosine along
/// x, the sine along z, to the micrometre.
pub proof fn law_waypoints_lie_along_their_heading(deck: Deck, radius: int, heading: Heading)
    requires
        deck.at.is_local(),
        heading.valid(),
        0 <= radius <= 900_000,
    ensures
        ({
            let w = waypoint(deck, radius, heading);
            &&& 1_000_000 * (w.x - deck.at.x) <= radius * heading.cos < 1_000_000 * (w.x
                - deck.at.x) + 1_000_000
            &&& 1_000_000 * (w.z - deck.at.z) <= radius * heading.sin < 1_000_000 * (w.z
                - deck.at.z) + 1_000_000
            &&& w.y == 0
        }),
{
    lemma_product_bound(radius, heading.cos as int, 900_000, 1_000_000);
    lemma_product_bound(radius, heading.sin as int, 900_000, 1_000_000);
}

/// A stroller walks towards the waypoint while it is more than 20 centimetres off, the slower
/// the nearer it is, and hops, where the script says so, for eight ticks out of 270 and only
/// near the middle.
pub proof fn law_a_stroller_walks_to_the_waypoint(
    jumpy: bool,
    tick: int,
    at: Point,
    deck: Deck,
    heading: Heading,
    m: int,
)
    requires
        0 <= tick,
        ({
            let to = waypoint(deck, stroll_radius(tick / 90, stroll_edge(deck.size)), heading);
            let way = ground_way(at, to);
            0 <= m && m * m <= way.x * way.x + way.z * way.z < (m + 1) * (m + 1)
        }),
    ensures
        ({
            let to = waypoint(deck, stroll_radius(tick / 90, stroll_edge(deck.size)), heading);
            let way = ground_way(at, to);
            let off = ground_way(deck.at, at);
            let hop = hop_radius(stroll_edge(deck.size));
            let input = strolling(jumpy, tick, at, deck, heading);
            &&& way.x * way.x + way.z * way.z > 40_000_000_000 <==> input.stride is Some
            &&& input.stride matches Some(s) ==> {
                &&& s.dir == way.direction()
                &&& 200_000 <= s.throttle <= 600_000
                &&& m <= 400_000 ==> 3 * m - 2 < 2 * s.throttle <= 3 * m || s.throttle == 200_000
                &&& m >= 400_000 ==> s.throttle == 600_000
            }
            &&& input.jump <==> jumpy && tick % 270 < 8 && off.x * off.x + off.z * off.z < hop
                * hop
        }),
{
    let to = waypoint(deck, stroll_radius(tick / 90, stroll_edge(deck.size)), heading);
    let way = ground_way(at, to);
    assert(0int * 0 == 0);
    assert(way.len2() == way.x * way.x + way.z * way.z);
    let off = ground_way(deck.at, at);
    assert(off.len2() == off.x * off.x + off.z * off.z);
    assert(way.x * way.x >= 0 && way.z * way.z >= 0) by (nonlinear_arith);
    crate::geom::lemma_floor_sqrt_unique(m as nat, way.len2() as nat);
    assert(ground_length(way) == m);
}

/// From the ground the way aboard leads to the step, 3.4 metres out along x, and from the step
/// on to the middle of the platform.
pub proof fn law_the_way_aboard_leads_over_the_step(at: Point)
    requires
        at.is_local(),
    ensures
        ({
            let to = boarding_target(at.y as int);
            &&& at.y <= -300_000 ==> to.x == 3_400_000 && to.z == 0
            &&& at.y > -300_000 ==> to.x == 0 && to.z == 0
        }),
        at.y > -300_000 ==> boarding_direction(at) == (Point {
            x: (-at.x) as i64,
            y: 0,
            z: (-at.z) as i64,
        }).direction(),
{
}

/// The rider counts as centred high enough up and within 45 centimetres of the middle, and
/// nowhere else.
pub proof fn law_centred_is_near_the_middle(at: Point)
    requires
        at.is_local(),
    ensures
        centred(at) <==> at.y > 1_900_000 && at.x * at.x + at.z * at.z < 450_000 * 450_000,
{
    let way = ground_way(at, boarding_target(at.y as int));
    if at.y > 1_900_000 {
        let (x, z) = (at.x as int, at.z as int);
        assert(way.x == -x && way.z == -z && way.y == 0);
        assert((-x) * (-x) == x * x && (-z) * (-z) == z * z && 0int * 0 == 0) by (nonlinear_arith);
        assert(way.len2() == x * x + z * z);
    }
}

/// Until it is centred the rider keeps walking, no slower than a fifth of full speed and slower
/// as it comes near. It hops at the foot of the step and anywhere on the step, and nowhere else.
pub proof fn law_the_rider_walks_and_hops(at: Point, m: int)
    requires
        at.is_local(),
        !centred(at),
        ({
            let way = ground_way(at, boarding_target(at.y as int));
            0 <= m && m * m <= way.x * way.x + way.z * way.z < (m + 1) * (m + 1)
        }),
    ensures
        ({
            let input = boarding(at);
            &&& input.stride is Some
            &&& input.stride->0.dir == boarding_direction(at)
            &&& 200_000 <= input.stride->0.throttle <= 1_000_000
            &&& 400_000 <= m <= 2_000_000 ==> m - 1 <= 2 * input.stride->0.throttle <= m
            &&& m >= 2_000_000 ==> input.stride->0.throttle == 1_000_000
            &&& at.y <= -300_000 && m < 2_200_000 ==> input.jump
            &&& at.y < -300_000 && m > 2_200_000 ==> !input.jump
            &&& -300_000 <= at.y < 1_900_000 ==> input.jump
            &&& at.y >= 1_900_000 ==> !input.jump
        }),
{
    let way = ground_way(at, boarding_target(at.y as int));
    assert(0int * 0 == 0);
    assert(way.len2() == way.x * way.x + way.z * way.z);
    assert(way.x * way.x >= 0 && way.z * way.z >= 0) by (nonlinear_arith);
    crate::geom::lemma_floor_sqrt_unique(m as nat, way.len2() as nat);
    assert(ground_length(way) == m);
    if m < 2_200_000 {
        assert((m + 1) * (m + 1) <= 2_200_000 * 2_200_000) by (nonlinear_arith)
            requires
                0 <= m < 2_200_000,
        ;
    }
    if m > 2_200_000 {
        assert(m * m >= 2_200_000 * 2_200_000) by (nonlinear_arith)
            requires
                m > 2_200_000,
        ;
    }
}

/// On the ground near the pad the rider's way bends outwards: to the direction of the step 1.4
/// times the direction away from the pad is added. Away from the pad, or with the step near,
/// it is straight.
pub proof fn law_the_way_bends_around_the_pad(at: Point)
    requires
        at.is_local(),
        at.y <= -300_000,
    ensures
        ({
            let way = Point { x: (3_400_000 - at.x) as i64, y: 0, z: (-at.z) as i64 };
            let out = Point { x: at.x, y: 0, z: at.z };
            let bends = way.x * way.x + way.z * way.z > 1_500_000 * 1_500_000 && at.x * at.x
                + at.z * at.z < 3_600_000 * 3_600_000;
            &&& !bends ==> boarding_direction(at) == way.direction()
            &&& bends ==> exists|bent: Point|
                {
                    &&& boarding_direction(at) == #[trigger] bent.unit()
                    &&& bent.y == 0
                    &&& 10 * (bent.x - way.direction().x) <= 14 * out.direction().x < 10 * (bent.x
                        - way.direction().x) + 10
                    &&& 10 * (bent.z - way.direction().z) <= 14 * out.direction().z < 10 * (bent.z
                        - way.direction().z) + 10
                }
        }),
{
    let way = ground_way(at, boarding_target(at.y as int));
    let out = Point { x: at.x, y: 0, z: at.z };
    assert(0int * 0 == 0);
    assert(way.len2() == way.x * way.x + way.z * way.z);
    assert(out.len2() == at.x * at.x + at.z * at.z);
    crate::geom::lemma_direction_bound(way);
    crate::geom::lemma_direction_bound(out);
    let bent = Point {
        x: (way.direction().x + (out.direction().x * 14) / 10) as i64,
        y: 0,
        z: (way.direction().z + (out.direction().z * 14) / 10) as i64,
    };
    assert(way == (Point { x: (3_400_000 - at.x) as i64, y: 0, z: (-at.z) as i64 }));
    let (d, o) = (way.direction(), out.direction());
    assert(bent.x - d.x == (o.x * 14) / 10 && bent.z - d.z == (o.z * 14) / 10);
    assert(bent.y == 0);
    if way.x * way.x + way.z * way.z > 1_500_000 * 1_500_000 && at.x * at.x + at.z * at.z
        < 3_600_000 * 3_600_000 {
        assert(boarding_direction(at) == bent.unit());
    }
}

/// There is one platform only: no block has a larger footprint, and of equal ones it is the last
/// that counts. What is no block is no platform.
pub proof fn law_the_platform_is_the_largest_block(parts: Seq<SeenPart>, k: int, i: int)
    requires
        is_platform(parts, k),
        0 <= i < parts.len(),
        i != k,
    ensures
        !is_platform(parts, i),
        parts[k].block is Some,
        parts[i].block is Some ==> parts[i].block->0.half_x * parts[i].block->0.half_z
            <= parts[k].block->0.half_x * parts[k].block->0.half_z,
        parts[i].block is Some && i > k ==> parts[i].block->0.half_x * parts[i].block->0.half_z
            < parts[k].block->0.half_x * parts[k].block->0.half_z,
{
    if parts[i].block is Some {
        law_footprints_go_by_both_sides(parts[i].block->0, parts[k].block->0);
    }
}

} // verus!
