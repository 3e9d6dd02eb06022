//! Loose parts: how they appear, which one a player looks at, and how one is held.

use crate::chance::random_between;
use crate::client::colour::Rgba;
use crate::geom::{
    SPAN_LIMIT,
    floor_div,
    floor_sqrt,
    integer_sqrt,
    lemma_floor_sqrt_exists,
    lemma_product_bound,
    square,
    Long,
    Point,
};
use crate::playground::player::FocusedInteractable;
use vstd::prelude::*;

verus! {

/// How many parts lie on the platform.
pub const NUM_PARTS: usize = 10;

/// A part's side, in micrometres.
pub const PART_SIZE: i64 = 1_000_000;

/// How stiffly a part is drawn to its place, and to its orientation, in millionths.
pub const POSITIONING_STIFFNESS: u64 = 30_000_000;

pub const ORIENTING_STIFFNESS: u64 = 5_000_000;

/// Seven tenths of half the platform: where parts fall.
pub const SPAWN_ZONE_HALF_WIDTH: i64 = 17_500_000;

/// Below this a part is lost.
pub const LOST_BELOW: i64 = -10_000_000;

/// From how far a part can be looked at, and how far off the line of sight, in
/// microradians (20 degrees).
pub const MAX_INTERACT_DISTANCE: i64 = 7_500_000;

pub const MAX_INTERACT_ANGLE: u64 = 349_066;

/// Something that can be picked up.
#[derive(Clone, Copy, Debug, PartialEq, Eq, Structural)]
pub struct Holdable;

// ---- Appearing -----------------------------------------------------------------------

/// Whether parts fall from here.
pub open spec fn in_spawn_zone(p: Point) -> bool {
    &&& -SPAWN_ZONE_HALF_WIDTH <= p.x <= SPAWN_ZONE_HALF_WIDTH
    &&& 5_000_000 <= p.y <= 15_000_000
    &&& -SPAWN_ZONE_HALF_WIDTH <= p.z <= SPAWN_ZONE_HALF_WIDTH
}

/// A place for a new part, anywhere above the inner platform.
pub fn spawn_part() -> (at: Point)
    ensures
        in_spawn_zone(at),
{
    Point {
        x: random_between(-SPAWN_ZONE_HALF_WIDTH, SPAWN_ZONE_HALF_WIDTH),
        y: random_between(5_000_000, 15_000_000),
        z: random_between(-SPAWN_ZONE_HALF_WIDTH, SPAWN_ZONE_HALF_WIDTH),
    }
}

/// Places for `n` new parts.
fn places(n: usize) -> (at: Vec<Point>)
    ensures
        at@.len() == n,
        forall|i: int| 0 <= i < n ==> in_spawn_zone(#[trigger] at@[i]),
{
    let mut at: Vec<Point> = Vec::new();
    while at.len() < n
        invariant
            at@.len() <= n,
            forall|i: int| 0 <= i < at@.len() ==> in_spawn_zone(#[trigger] at@[i]),
        decreases n - at@.len(),
    {
        at.push(spawn_part());
    }
    at
}

/// Places for the parts that a game starts with.
pub fn spawn_parts() -> (at: Vec<Point>)
    ensures
        at@.len() == NUM_PARTS,
        forall|i: int| 0 <= i < at@.len() ==> in_spawn_zone(#[trigger] at@[i]),
{
    places(NUM_PARTS)
}

/// A part on the platform, or falling off it.
#[derive(Clone, Copy, Debug, PartialEq, Eq, Structural)]
pub struct Part {
    pub entity: u64,
    pub translation: Point,
}

/// Whether a part has fallen off.
pub open spec fn lost(p: Part) -> bool {
    p.translation.y < LOST_BELOW
}

/// The parts that fell off, to be taken away, and places for as many new ones.
pub fn replace_fallen_parts(parts: &[Part]) -> (r: (Vec<u64>, Vec<Point>))
    ensures
        r.0@ == parts@.filter(|p: Part| lost(p)).map_values(|p: Part| p.entity),
        r.1@.len() == r.0@.len(),
        forall|i: int| 0 <= i < r.1@.len() ==> in_spawn_zone(#[trigger] r.1@[i]),
{
    let mut gone: Vec<u64> = Vec::new();
    let ghost is_lost = |p: Part| lost(p);
    let ghost entity = |p: Part| p.entity;
    let mut i: usize = 0;
    proof {
        reveal(Seq::filter);
        assert(parts@.take(0).filter(is_lost).map_values(entity) =~= Seq::<u64>::empty());
    }
    while i < parts.len()
        invariant
            i <= parts.len(),
            is_lost == (|p: Part| lost(p)),
            entity == (|p: Part| p.entity),
            gone@ == parts@.take(i as int).filter(is_lost).map_values(entity),
        decreases parts.len() - i,
    {
        proof {
            reveal(Seq::filter);
            assert(parts@.take(i + 1).drop_last() =~= parts@.take(i as int));
            let kept = parts@.take(i as int).filter(is_lost);
            assert(kept.push(parts@[i as int]).map_values(entity) =~= kept.map_values(entity).push(
                parts@[i as int].entity,
            ));
        }
        if parts[i].translation.y < LOST_BELOW {
            gone.push(parts[i].entity);
        }
        i = i + 1;
    }
    assert(parts@.take(i as int) =~= parts@);
    let at: Vec<Point> = places(gone.len());
    (gone, at)
}

// ---- Looking at one ------------------------------------------------------------------

/// Something to look at, and how far off the line of sight it lies, in microradians.
#[derive(Clone, Copy, Debug, PartialEq, Eq, Structural)]
pub struct Candidate {
    pub entity: u64,
    pub translation: Point,
    pub angle: u64,
}

/// Whether a thing is near enough to `eye`, and close enough to the line of sight.
pub open spec fn can_focus(eye: Point, c: Candidate) -> bool {
    c.translation.dist2(eye) < square(MAX_INTERACT_DISTANCE as int) && c.angle
        < MAX_INTERACT_ANGLE
}

/// Whether `best` is what a player looks at: the first of those that lie closest to the line
/// of sight.
pub open spec fn is_focus(eye: Point, things: Seq<Candidate>, best: Option<u64>) -> bool {
    match best {
        None => forall|i: int| 0 <= i < things.len() ==> !can_focus(eye, #[trigger] things[i]),
        Some(entity) => exists|b: int| #[trigger]
            is_closest(eye, things, b) && things[b].entity == entity,
    }
}

pub open spec fn is_closest(eye: Point, things: Seq<Candidate>, b: int) -> bool {
    &&& 0 <= b < things.len()
    &&& can_focus(eye, things[b])
    &&& forall|i: int|
        0 <= i < things.len() && can_focus(eye, #[trigger] things[i]) ==> things[b].angle
            <= things[i].angle && (things[b].angle == things[i].angle ==> b <= i)
}

/// The thing that a player looks at from `eye`.
pub fn focus(eye: &Point, things: &[Candidate]) -> (best: Option<u64>)
    requires
        eye.is_local(),
        forall|i: int| 0 <= i < things@.len() ==> (#[trigger] things@[i]).translation.is_local(),
    ensures
        is_focus(*eye, things@, best),
{
    let mut best: Option<usize> = None;
    let mut smallest: u64 = MAX_INTERACT_ANGLE;
    let mut i: usize = 0;
    assert(square(7_500_000) == 56_250_000_000_000) by (nonlinear_arith);
    while i < things.len()
        invariant
            i <= things.len(),
            eye.is_local(),
            square(7_500_000) == 56_250_000_000_000,
            forall|k: int|
                0 <= k < things@.len() ==> (#[trigger] things@[k]).translation.is_local(),
            match best {
                None => {
                    &&& smallest == MAX_INTERACT_ANGLE
                    &&& forall|k: int| 0 <= k < i ==> !can_focus(*eye, #[trigger] things@[k])
                },
                Some(b) => {
                    &&& b < i
                    &&& can_focus(*eye, things@[b as int])
                    &&& smallest == things@[b as int].angle
                    &&& forall|k: int|
                        0 <= k < i && can_focus(*eye, #[trigger] things@[k]) ==> smallest
                            <= things@[k].angle && (smallest == things@[k].angle ==> b <= k)
                },
            },
        decreases things.len() - i,
    {
        let c: Candidate = things[i];
        if c.translation.distance_squared(eye) < 56_250_000_000_000 && c.angle < smallest {
            smallest = c.angle;
            best = Some(i);
        }
        i = i + 1;
    }
    match best {
        None => None,
        Some(b) => {
            assert(is_closest(*eye, things@, b as int));
            Some(things[b].entity)
        },
    }
}

/// What a player looks at whose cameras turn about these points: what is seen from the last
/// of them from which anything is.
pub open spec fn latest(seen: Seq<Option<u64>>) -> Option<u64>
    decreases seen.len(),
{
    if seen.len() == 0 {
        None
    } else if seen.last() is Some {
        seen.last()
    } else {
        latest(seen.drop_last())
    }
}

pub fn latest_focus(seen: &[Option<u64>]) -> (f: Option<u64>)
    ensures
        f == latest(seen@),
{
    let mut f: Option<u64> = None;
    let mut i: usize = 0;
    assert(seen@.take(0) =~= Seq::<Option<u64>>::empty());
    while i < seen.len()
        invariant
            i <= seen.len(),
            f == latest(seen@.take(i as int)),
        decreases seen.len() - i,
    {
        assert(seen@.take(i + 1).drop_last() =~= seen@.take(i as int));
        if seen[i].is_some() {
            f = seen[i];
        }
        i = i + 1;
    }
    assert(seen@.take(i as int) =~= seen@);
    f
}

/// The focus of a player who now looks at `new`.
pub open spec fn refocused(f: FocusedInteractable, new: Option<u64>) -> FocusedInteractable {
    if f.current == new {
        f
    } else {
        FocusedInteractable {
            current: new,
            previous: if f.current is Some {
                f.current
            } else {
                f.previous
            },
            previous_color: f.previous_color,
        }
    }
}

/// A player, and what it looks at from where its camera turns.
#[derive(Clone, Copy, Debug, PartialEq, Eq, Structural)]
pub struct Onlooker {
    pub focused: FocusedInteractable,
    pub holding: bool,
    pub new_focus: Option<u64>,
}

/// A player after a frame: one who holds something keeps looking at it.
pub open spec fn looked_around(player: Onlooker) -> Onlooker {
    if player.holding {
        player
    } else {
        Onlooker { focused: refocused(player.focused, player.new_focus), ..player }
    }
}

/// Moves a player's focus.
pub fn refocus(f: &mut FocusedInteractable, new: Option<u64>)
    ensures
        *final(f) == refocused(*old(f), new),
{
    match new {
        Some(newly) => match f.current {
            Some(currently) => if newly != currently {
                f.previous = Some(currently);
                f.current = Some(newly);
            },
            None => {
                f.current = Some(newly);
            },
        },
        None => match f.current {
            Some(currently) => {
                f.previous = Some(currently);
                f.current = None;
            },
            None => {},
        },
    }
}

/// Moves the focus of every player who holds nothing.
pub fn update_focused_interactables(players: &mut Vec<Onlooker>)
    ensures
        final(players)@ == old(players)@.map_values(|p: Onlooker| looked_around(p)),
{
    let ghost before = players@;
    let mut i: usize = 0;
    while i < players.len()
        invariant
            i <= players@.len(),
            players@.len() == before.len(),
            forall|k: int| 0 <= k < i ==> #[trigger] players@[k] == looked_around(before[k]),
            forall|k: int| i <= k < players@.len() ==> #[trigger] players@[k] == before[k],
        decreases players@.len() - i,
    {
        let mut player: Onlooker = players[i];
        if !player.holding {
            refocus(&mut player.focused, player.new_focus);
            players.set(i, player);
        }
        i = i + 1;
    }
    assert(players@ =~= before.map_values(|p: Onlooker| looked_around(p)));
}

/// A channel made brighter by three quarters, in millionths.
pub open spec fn brighter(channel: u32) -> u32 {
    if channel + 750_000 > 1_000_000 {
        1_000_000
    } else {
        (channel + 750_000) as u32
    }
}

/// A colour made more yellow.
pub open spec fn yellowish(c: Rgba) -> Rgba {
    Rgba { r: brighter(c.r), g: brighter(c.g), b: c.b, a: c.a }
}

fn brighten(channel: u32) -> (c: u32)
    requires
        channel <= 1_000_000,
    ensures
        c == brighter(channel),
{
    if channel + 750_000 > 1_000_000 {
        1_000_000
    } else {
        channel + 750_000
    }
}

/// Gives the thing that was looked at its colour back, then keeps the colour of the thing
/// that is looked at and makes it more yellow. A colour is missing where the thing is gone.
/// What was looked at before had its colour kept.
pub fn highlight_interactables(
    f: &mut FocusedInteractable,
    previous: &mut Option<Rgba>,
    current: &mut Option<Rgba>,
)
    requires
        *old(previous) is Some && old(f).previous is Some ==> old(f).previous_color is Some,
        *old(current) matches Some(c) ==> c.r <= 1_000_000 && c.g <= 1_000_000,
    ensures
        *final(previous) == (if *old(previous) is Some && old(f).previous is Some {
            old(f).previous_color
        } else {
            *old(previous)
        }),
        match *old(current) {
            Some(c) if old(f).current is Some => {
                &&& *final(current) == Some(yellowish(c))
                &&& *final(f) == (FocusedInteractable { previous_color: Some(c), ..*old(f) })
            },
            _ => *final(current) == *old(current) && *final(f) == *old(f),
        },
{
    if f.previous.is_some() && previous.is_some() {
        *previous = f.previous_color;
    }
    if f.current.is_some() {
        if let Some(c) = *current {
            f.previous_color = Some(c);
            *current = Some(Rgba { r: brighten(c.r), g: brighten(c.g), b: c.b, a: c.a });
        }
    }
}

/// The law of the highlight: when a player looks from one thing to another, the colour kept
/// for the first is the one that it had before it was highlighted.
pub proof fn law_colour_is_given_back(f: FocusedInteractable, thing: u64, next: u64, c: Rgba)
    requires
        f.current == Some(thing),
        thing != next,
        f.previous_color == Some(c),
    ensures
        refocused(f, Some(next)).previous == Some(thing),
        refocused(f, Some(next)).previous_color == Some(c),
{
}

// ---- Holding one ---------------------------------------------------------------------

/// A spring that comes to rest as fast as it can without swinging over, in millionths.
#[derive(Clone, Copy, Debug, PartialEq, Eq, Structural)]
pub struct CriticallyDampedHarmonicOscillator {
    pub stiffness: u64,
    pub damping: u64,
}

/// The stiffest spring.
pub const STIFFNESS_LIMIT: u64 = 1_000_000_000;

impl CriticallyDampedHarmonicOscillator {
    /// The spring of a stiffness: its damping is twice the root of that.
    pub open spec fn of_stiffness(stiffness: u64) -> Self {
        CriticallyDampedHarmonicOscillator {
            stiffness,
            damping: (2 * floor_sqrt((stiffness * 1_000_000) as nat)) as u64,
        }
    }

    /// Whether the damping is the one that belongs to the stiffness.
    pub open spec fn wf(self) -> bool {
        &&& self.stiffness <= STIFFNESS_LIMIT
        &&& self.damping == 2 * floor_sqrt((self.stiffness * 1_000_000) as nat)
        &&& self.damping <= 1_000_000_000
    }

    /// The spring of a stiffness.
    pub fn new(stiffness: u64) -> (o: Self)
        requires
            stiffness <= STIFFNESS_LIMIT,
        ensures
            o.wf(),
            o == Self::of_stiffness(stiffness),
    {
        let n: u128 = stiffness as u128 * 1_000_000;
        let root: u64 = integer_sqrt(n);
        proof {
            lemma_floor_sqrt_exists(n as nat);
            if root > 100_000_000 {
                assert(root * root > 100_000_000 * 100_000_000) by (nonlinear_arith)
                    requires
                        root > 100_000_000,
                ;
            }
        }
        CriticallyDampedHarmonicOscillator { stiffness, damping: 2 * root }
    }

    /// The pull along one axis, of a place `displacement` away that is approached at
    /// `velocity`.
    pub open spec fn pull(self, displacement: int, velocity: int) -> int {
        (displacement * self.stiffness - velocity * self.damping) / 1_000_000
    }

    fn pull_axis(&self, displacement: i64, velocity: i64) -> (a: i128)
        requires
            self.wf(),
            -SPAN_LIMIT <= displacement <= SPAN_LIMIT,
            -SPAN_LIMIT <= velocity <= SPAN_LIMIT,
        ensures
            a == self.pull(displacement as int, velocity as int),
            -PULL_LIMIT <= a <= PULL_LIMIT,
            -ANGLE_LIMIT <= displacement <= ANGLE_LIMIT && -ANGLE_LIMIT <= velocity <= ANGLE_LIMIT
                ==> -0x10_0000_0000_0000 <= a <= 0x10_0000_0000_0000,
    {
        proof {
            let (d, v) = (displacement as int, velocity as int);
            let (k, c) = (self.stiffness as int, self.damping as int);
            lemma_product_bound(d, k, SPAN_LIMIT as int, 1_000_000_000);
            lemma_product_bound(v, c, SPAN_LIMIT as int, 1_000_000_000);
            if -ANGLE_LIMIT <= d <= ANGLE_LIMIT && -ANGLE_LIMIT <= v <= ANGLE_LIMIT {
                lemma_product_bound(d, k, ANGLE_LIMIT as int, 1_000_000_000);
                lemma_product_bound(v, c, ANGLE_LIMIT as int, 1_000_000_000);
            }
        }
        floor_div(
            displacement as i128 * self.stiffness as i128 - velocity as i128 * self.damping as i128,
            1_000_000,
        )
    }

    /// The acceleration towards a place.
    pub fn calculate_acceleration(&self, displacement: &Point, velocity: &Point) -> (a: Long)
        requires
            self.wf(),
            displacement.within(SPAN_LIMIT as int),
            velocity.within(SPAN_LIMIT as int),
        ensures
            a.x == self.pull(displacement.x as int, velocity.x as int),
            a.y == self.pull(displacement.y as int, velocity.y as int),
            a.z == self.pull(displacement.z as int, velocity.z as int),
            -PULL_LIMIT <= a.x <= PULL_LIMIT,
            -PULL_LIMIT <= a.y <= PULL_LIMIT,
            -PULL_LIMIT <= a.z <= PULL_LIMIT,
            displacement.within(ANGLE_LIMIT as int) && velocity.within(ANGLE_LIMIT as int)
                ==> -0x10_0000_0000_0000 <= a.x <= 0x10_0000_0000_0000 && -0x10_0000_0000_0000 <= a.y
                <= 0x10_0000_0000_0000 && -0x10_0000_0000_0000 <= a.z <= 0x10_0000_0000_0000,
    {
        Long {
            x: self.pull_axis(displacement.x, velocity.x),
            y: self.pull_axis(displacement.y, velocity.y),
            z: self.pull_axis(displacement.z, velocity.z),
        }
    }
}

/// The strongest pull on a part that is held anywhere in the world (2^73).
pub const PULL_LIMIT: i128 = 0x200_0000_0000_0000_0000;

/// The heaviest part, in grams (2^40).
pub const PART_MASS_LIMIT: u64 = 0x100_0000_0000;

/// How far and how fast a part can turn, in microradians (2^40, a million radians).
pub const ANGLE_LIMIT: i64 = 0x100_0000_0000;

/// The largest entry of the root of an inertia, in millionths (2^40).
pub const ROOT_LIMIT: i64 = 0x100_0000_0000;

/// The place that a part is drawn to.
#[derive(Clone, Copy, Debug, PartialEq, Eq, Structural)]
pub struct TargetPosition {
    pub hold_point: u64,
    pub oscillator: CriticallyDampedHarmonicOscillator,
}

impl TargetPosition {
    /// A part held at `hold_point`.
    pub fn new(hold_point: u64) -> (t: Self)
        ensures
            t.hold_point == hold_point,
            t.oscillator.wf(),
            t.oscillator == CriticallyDampedHarmonicOscillator::of_stiffness(
                POSITIONING_STIFFNESS,
            ),
    {
        TargetPosition {
            hold_point,
            oscillator: CriticallyDampedHarmonicOscillator::new(POSITIONING_STIFFNESS),
        }
    }
}

/// The force along one axis that draws a part of `mass` grams to its place and carries its
/// weight, in grams times micrometres per second squared.
pub open spec fn holding_force(
    o: CriticallyDampedHarmonicOscillator,
    mass: int,
    between: int,
    velocity: int,
    gravity: int,
) -> int {
    o.pull(between, velocity) * mass - mass * gravity
}

fn force_axis(acceleration: i128, mass: u64, gravity: i64) -> (f: i128)
    requires
        -PULL_LIMIT <= acceleration <= PULL_LIMIT,
        mass <= PART_MASS_LIMIT,
    ensures
        f == acceleration * mass - mass * gravity,
{
    proof {
        lemma_product_bound(
            acceleration as int,
            mass as int,
            PULL_LIMIT as int,
            PART_MASS_LIMIT as int,
        );
        lemma_product_bound(mass as int, gravity as int, 0x100_0000_0000, 0x8000_0000_0000_0000);
    }
    acceleration * mass as i128 - mass as i128 * gravity as i128
}

/// The force on a held part, from its place, the point that it is held at, its speed and
/// the pull of the ground.
pub fn position_held_part(
    target: &TargetPosition,
    hold_point: &Point,
    part: &Point,
    velocity: &Point,
    mass: u64,
    gravity: &Point,
) -> (f: Long)
    requires
        target.oscillator.wf(),
        hold_point.is_local(),
        part.is_local(),
        velocity.is_local(),
        mass <= PART_MASS_LIMIT,
    ensures
        f.x == holding_force(
            target.oscillator,
            mass as int,
            hold_point.x - part.x,
            velocity.x as int,
            gravity.x as int,
        ),
        f.y == holding_force(
            target.oscillator,
            mass as int,
            hold_point.y - part.y,
            velocity.y as int,
            gravity.y as int,
        ),
        f.z == holding_force(
            target.oscillator,
            mass as int,
            hold_point.z - part.z,
            velocity.z as int,
            gravity.z as int,
        ),
{
    let between: Point = Point {
        x: hold_point.x - part.x,
        y: hold_point.y - part.y,
        z: hold_point.z - part.z,
    };
    let a: Long = target.oscillator.calculate_acceleration(&between, velocity);
    Long {
        x: force_axis(a.x, mass, gravity.x),
        y: force_axis(a.y, mass, gravity.y),
        z: force_axis(a.z, mass, gravity.z),
    }
}

/// The angular acceleration that turns a part into its orientation, from the rotation that
/// is left and the speed of turning, in microradians.
pub open spec fn turning(rotation_between: Point, angular_velocity: Point) -> (int, int, int) {
    let o = CriticallyDampedHarmonicOscillator::of_stiffness(ORIENTING_STIFFNESS);
    (
        o.pull(rotation_between.x as int, angular_velocity.x as int),
        o.pull(rotation_between.y as int, angular_velocity.y as int),
        o.pull(rotation_between.z as int, angular_velocity.z as int),
    )
}

/// The root of a body's inertia: a symmetric matrix, in millionths.
#[derive(Clone, Copy, Debug, PartialEq, Eq, Structural)]
pub struct InertiaRoot {
    pub m11: i64,
    pub m12: i64,
    pub m13: i64,
    pub m22: i64,
    pub m23: i64,
    pub m33: i64,
}

impl InertiaRoot {
    pub open spec fn valid(self) -> bool {
        &&& -ROOT_LIMIT <= self.m11 <= ROOT_LIMIT
        &&& -ROOT_LIMIT <= self.m12 <= ROOT_LIMIT
        &&& -ROOT_LIMIT <= self.m13 <= ROOT_LIMIT
        &&& -ROOT_LIMIT <= self.m22 <= ROOT_LIMIT
        &&& -ROOT_LIMIT <= self.m23 <= ROOT_LIMIT
        &&& -ROOT_LIMIT <= self.m33 <= ROOT_LIMIT
    }

    /// The product of the matrix and a vector, each coordinate rounded down.
    pub open spec fn of(self, v: (int, int, int)) -> (int, int, int) {
        (
            (self.m11 * v.0 + self.m12 * v.1 + self.m13 * v.2) / 1_000_000,
            (self.m12 * v.0 + self.m22 * v.1 + self.m23 * v.2) / 1_000_000,
            (self.m13 * v.0 + self.m23 * v.1 + self.m33 * v.2) / 1_000_000,
        )
    }

    fn row(a: i64, b: i64, c: i64, v: &Long, reach: i128) -> (r: i128)
        requires
            -ROOT_LIMIT <= a <= ROOT_LIMIT,
            -ROOT_LIMIT <= b <= ROOT_LIMIT,
            -ROOT_LIMIT <= c <= ROOT_LIMIT,
            0 <= reach <= 0x800_0000_0000_0000_0000,
            -reach <= v.x <= reach,
            -reach <= v.y <= reach,
            -reach <= v.z <= reach,
        ensures
            r == (a * v.x + b * v.y + c * v.z) / 1_000_000,
            -4_000_000 * reach <= r <= 4_000_000 * reach,
    {
        proof {
            lemma_product_bound(a as int, v.x as int, 0x100_0000_0000, reach as int);
            lemma_product_bound(b as int, v.y as int, 0x100_0000_0000, reach as int);
            lemma_product_bound(c as int, v.z as int, 0x100_0000_0000, reach as int);
        }
        floor_div(a as i128 * v.x + b as i128 * v.y + c as i128 * v.z, 1_000_000)
    }

    fn times(&self, v: &Long, reach: i128) -> (r: Long)
        requires
            self.valid(),
            0 <= reach <= 0x800_0000_0000_0000_0000,
            -reach <= v.x <= reach,
            -reach <= v.y <= reach,
            -reach <= v.z <= reach,
        ensures
            (r.x as int, r.y as int, r.z as int) == self.of((v.x as int, v.y as int, v.z as int)),
            -4_000_000 * reach <= r.x <= 4_000_000 * reach,
            -4_000_000 * reach <= r.y <= 4_000_000 * reach,
            -4_000_000 * reach <= r.z <= 4_000_000 * reach,
    {
        Long {
            x: InertiaRoot::row(self.m11, self.m12, self.m13, v, reach),
            y: InertiaRoot::row(self.m12, self.m22, self.m23, v, reach),
            z: InertiaRoot::row(self.m13, self.m23, self.m33, v, reach),
        }
    }
}

/// The torque that turns a held part into its orientation: its inertia, which is the square
/// of its root, times the angular acceleration.
pub fn orient_held_part(
    rotation_between: &Point,
    angular_velocity: &Point,
    inertia_root: &InertiaRoot,
) -> (torque: Long)
    requires
        rotation_between.within(ANGLE_LIMIT as int),
        angular_velocity.within(ANGLE_LIMIT as int),
        inertia_root.valid(),
    ensures
        (torque.x as int, torque.y as int, torque.z as int) == inertia_root.of(
            inertia_root.of(turning(*rotation_between, *angular_velocity)),
        ),
{
    let o = CriticallyDampedHarmonicOscillator::new(ORIENTING_STIFFNESS);
    let a: Long = o.calculate_acceleration(rotation_between, angular_velocity);
    let half: Long = inertia_root.times(&a, 0x10_0000_0000_0000);
    inertia_root.times(&half, 0x800_0000_0000_0000_0000)
}

/// The law of the spring: its damping is the critical one, twice the root of its stiffness,
/// to the last millionth.
pub proof fn law_damping_is_critical(o: CriticallyDampedHarmonicOscillator)
    requires
        o.wf(),
    ensures
        o.damping * o.damping <= 4 * (o.stiffness * 1_000_000) < (o.damping + 2) * (o.damping + 2),
{
    let n = (o.stiffness * 1_000_000) as nat;
    lemma_floor_sqrt_exists(n);
    let r = floor_sqrt(n) as int;
    assert((2 * r) * (2 * r) == 4 * (r * r)) by (nonlinear_arith);
    assert((2 * r + 2) * (2 * r + 2) == 4 * ((r + 1) * (r + 1))) by (nonlinear_arith);
}

/// The law of rest: a part that is where it is held and does not move is pushed by no more
/// than its weight.
pub proof fn law_a_held_part_rests(o: CriticallyDampedHarmonicOscillator, mass: int, gravity: int)
    ensures
        holding_force(o, mass, 0, 0, gravity) == -(mass * gravity),
{
    assert(0 * o.stiffness - 0 * o.damping == 0);
    assert(0 * mass == 0);
}

// ---- What looking and holding promise ------------------------------------------------

/// A part is lost below ten metres down, and no higher.
pub proof fn law_lost_is_below(p: Part)
    ensures
        lost(p) <==> p.translation.y < -10_000_000,
{
}

/// A thing can be looked at from nearer than seven and a half metres and closer than twenty
/// degrees off the line of sight, and from nowhere else.
pub proof fn law_focus_is_near_and_ahead(eye: Point, c: Candidate)
    ensures
        ({
            let (x, y, z) = (
                c.translation.x - eye.x,
                c.translation.y - eye.y,
                c.translation.z - eye.z,
            );
            can_focus(eye, c) <==> x * x + y * y + z * z < 7_500_000 * 7_500_000 && c.angle
                < 349_066
        }),
{
    crate::geom::law_distance_is_by_axes(c.translation, eye);
}

/// What was seen last counts, and a look at nothing does not undo it.
pub proof fn law_the_latest_look_counts(seen: Seq<Option<u64>>, part: u64)
    ensures
        latest(seen.push(Some(part))) == Some(part),
        latest(seen.push(None)) == latest(seen),
        latest(Seq::empty()) is None,
{
    assert(seen.push(Some(part)).drop_last() == seen);
    assert(seen.push(None).drop_last() == seen);
}

/// A player who looks elsewhere looks at the new thing, and what it looked at before is
/// remembered; a look at nothing in between forgets neither. One who holds a part keeps looking
/// at it.
pub proof fn law_the_focus_moves(player: Onlooker)
    ensures
        ({
            let (before, after) = (player.focused, looked_around(player).focused);
            &&& player.holding ==> after == before
            &&& !player.holding ==> after.current == player.new_focus
            &&& !player.holding && before.current != player.new_focus && before.current is Some
                ==> after.previous == before.current
            &&& before.current is None || before.current == player.new_focus ==> after.previous
                == before.previous
            &&& after.previous_color == before.previous_color
        }),
        looked_around(player).holding == player.holding,
        looked_around(player).new_focus == player.new_focus,
{
}

/// A highlighted thing is brighter in red and in green by three quarters, up to full, and as
/// blue and as opaque as before.
pub proof fn law_a_highlight_is_yellow(c: Rgba)
    requires
        c.r <= 1_000_000,
        c.g <= 1_000_000,
    ensures
        c.r <= 250_000 ==> yellowish(c).r - c.r == 750_000,
        c.r >= 250_000 ==> yellowish(c).r == 1_000_000,
        c.g <= 250_000 ==> yellowish(c).g - c.g == 750_000,
        c.g >= 250_000 ==> yellowish(c).g == 1_000_000,
        yellowish(c).b == c.b,
        yellowish(c).a == c.a,
{
}

/// A spring pulls towards its place and against the motion: by its stiffness for the way, less
/// its damping for the speed, in millionths, rounded down.
pub proof fn law_a_spring_pulls_home(
    o: CriticallyDampedHarmonicOscillator,
    displacement: int,
    velocity: int,
)
    ensures
        1_000_000 * o.pull(displacement, velocity) <= displacement * o.stiffness - velocity
            * o.damping < 1_000_000 * o.pull(displacement, velocity) + 1_000_000,
        displacement >= 0 && velocity <= 0 ==> o.pull(displacement, velocity) >= 0,
        displacement <= 0 && velocity >= 0 ==> o.pull(displacement, velocity) <= 0,
{
    let (k, c) = (o.stiffness as int, o.damping as int);
    assert(displacement >= 0 ==> displacement * k >= 0) by (nonlinear_arith)
        requires
            k >= 0,
    ;
    assert(displacement <= 0 ==> displacement * k <= 0) by (nonlinear_arith)
        requires
            k >= 0,
    ;
    assert(velocity >= 0 ==> velocity * c >= 0) by (nonlinear_arith)
        requires
            c >= 0,
    ;
    assert(velocity <= 0 ==> velocity * c <= 0) by (nonlinear_arith)
        requires
            c >= 0,
    ;
}

/// With its weight taken away, the force on a held part is its mass times the spring's pull.
pub proof fn law_a_held_part_is_carried(
    o: CriticallyDampedHarmonicOscillator,
    mass: int,
    between: int,
    velocity: int,
    gravity: int,
)
    ensures
        holding_force(o, mass, between, velocity, gravity) + mass * gravity == mass * o.pull(
            between,
            velocity,
        ),
{
    let p = o.pull(between, velocity);
    assert(p * mass == mass * p) by (nonlinear_arith);
}

/// A held part is turned about each axis by what is left about that axis and against its turning
/// about it: by a spring of five, with its own critical damping.
pub proof fn law_a_part_is_turned_axis_by_axis(left: Point, spin: Point, damping: int)
    requires
        damping >= 0,
        damping % 2 == 0,
        (damping / 2) * (damping / 2) <= 5_000_000_000_000 < (damping / 2 + 1) * (damping / 2 + 1),
    ensures
        ({
            let t = turning(left, spin);
            &&& 1_000_000 * t.0 <= 5_000_000 * left.x - damping * spin.x < 1_000_000 * t.0
                + 1_000_000
            &&& 1_000_000 * t.1 <= 5_000_000 * left.y - damping * spin.y < 1_000_000 * t.1
                + 1_000_000
            &&& 1_000_000 * t.2 <= 5_000_000 * left.z - damping * spin.z < 1_000_000 * t.2
                + 1_000_000
        }),
{
    let h = damping / 2;
    assert(5_000_000nat * 1_000_000nat == 5_000_000_000_000nat) by (nonlinear_arith);
    crate::geom::lemma_floor_sqrt_unique(h as nat, 5_000_000_000_000);
    assert(h < 0x4000_0000) by (nonlinear_arith)
        requires
            h * h <= 5_000_000_000_000,
            h >= 0,
    ;
    let o = CriticallyDampedHarmonicOscillator::of_stiffness(ORIENTING_STIFFNESS);
    assert(o.stiffness == 5_000_000);
    assert(o.damping == damping);
    law_a_spring_pulls_home(o, left.x as int, spin.x as int);
    law_a_spring_pulls_home(o, left.y as int, spin.y as int);
    law_a_spring_pulls_home(o, left.z as int, spin.z as int);
    let (x, y, z) = (spin.x as int, spin.y as int, spin.z as int);
    assert(x * damping == damping * x && y * damping == damping * y && z * damping == damping * z)
        by (nonlinear_arith);
}

/// The root of an inertia is one matrix, the same across its diagonal: what it makes of a turn
/// about one axis is that axis' column, and turns add up, to the last unit.
pub proof fn law_the_inertia_is_linear(
    root: InertiaRoot,
    k: int,
    v: (int, int, int),
    w: (int, int, int),
)
    ensures
        root.of((1_000_000 * k, 0, 0)) == (root.m11 * k, root.m12 * k, root.m13 * k),
        root.of((0, 1_000_000 * k, 0)) == (root.m12 * k, root.m22 * k, root.m23 * k),
        root.of((0, 0, 1_000_000 * k)) == (root.m13 * k, root.m23 * k, root.m33 * k),
        ({
            let (a, b) = (root.of(v), root.of(w));
            let sum = root.of((v.0 + w.0, v.1 + w.1, v.2 + w.2));
            &&& 0 <= sum.0 - a.0 - b.0 <= 1
            &&& 0 <= sum.1 - a.1 - b.1 <= 1
            &&& 0 <= sum.2 - a.2 - b.2 <= 1
        }),
{
    lemma_column(root.m11 as int, root.m12 as int, root.m13 as int, k);
    lemma_column(root.m12 as int, root.m22 as int, root.m23 as int, k);
    lemma_column(root.m13 as int, root.m23 as int, root.m33 as int, k);
    lemma_row_adds(root.m11 as int, root.m12 as int, root.m13 as int, v, w);
    lemma_row_adds(root.m12 as int, root.m22 as int, root.m23 as int, v, w);
    lemma_row_adds(root.m13 as int, root.m23 as int, root.m33 as int, v, w);
}

proof fn lemma_column(a: int, b: int, c: int, k: int)
    ensures
        (a * (1_000_000 * k) + b * 0 + c * 0) / 1_000_000 == a * k,
        (a * 0 + b * (1_000_000 * k) + c * 0) / 1_000_000 == b * k,
        (a * 0 + b * 0 + c * (1_000_000 * k)) / 1_000_000 == c * k,
{
    assert(a * (1_000_000 * k) == 1_000_000 * (a * k)) by (nonlinear_arith);
    assert(b * (1_000_000 * k) == 1_000_000 * (b * k)) by (nonlinear_arith);
    assert(c * (1_000_000 * k) == 1_000_000 * (c * k)) by (nonlinear_arith);
}

proof fn lemma_row_adds(a: int, b: int, c: int, v: (int, int, int), w: (int, int, int))
    ensures
        ({
            let p = (a * v.0 + b * v.1 + c * v.2) / 1_000_000;
            let q = (a * w.0 + b * w.1 + c * w.2) / 1_000_000;
            let s = (a * (v.0 + w.0) + b * (v.1 + w.1) + c * (v.2 + w.2)) / 1_000_000;
            0 <= s - p - q <= 1
        }),
{
    assert(a * (v.0 + w.0) == a * v.0 + a * w.0) by (nonlinear_arith);
    assert(b * (v.1 + w.1) == b * v.1 + b * w.1) by (nonlinear_arith);
    assert(c * (v.2 + w.2) == c * v.2 + c * w.2) by (nonlinear_arith);
}

/// What a player looks at can be focused, and nothing that can lies closer to the line of sight;
/// of those as close it is the first.
pub proof fn law_the_focus_is_closest_to_the_line_of_sight(
    eye: Point,
    things: Seq<Candidate>,
    entity: u64,
)
    requires
        is_focus(eye, things, Some(entity)),
    ensures
        exists|b: int|
            0 <= b < things.len() && (#[trigger] things[b]).entity == entity && can_focus(
                eye,
                things[b],
            ) && (forall|i: int|
                0 <= i < things.len() && can_focus(eye, #[trigger] things[i]) ==> things[b].angle
                    < things[i].angle || (things[b].angle == things[i].angle && b <= i)),
{
    let b = choose|b: int| #[trigger] is_closest(eye, things, b) && things[b].entity == entity;
    assert(things[b].entity == entity);
}

/// A player looks at something just where there is something that can be focused.
pub proof fn law_something_is_focused_where_it_can_be(
    eye: Point,
    things: Seq<Candidate>,
    best: Option<u64>,
    i: int,
)
    requires
        is_focus(eye, things, best),
        0 <= i < things.len(),
        can_focus(eye, things[i]),
    ensures
        best is Some,
{
}

/// New parts appear above the inner platform, at least five metres up and at most fifteen.
pub proof fn law_parts_appear_above_the_platform(p: Point)
    requires
        in_spawn_zone(p),
    ensures
        -SPAWN_ZONE_HALF_WIDTH <= p.x <= SPAWN_ZONE_HALF_WIDTH,
        -SPAWN_ZONE_HALF_WIDTH <= p.z <= SPAWN_ZONE_HALF_WIDTH,
        5_000_000 <= p.y <= 15_000_000,
{
}

} // verus!
