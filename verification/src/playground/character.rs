//! The character: what it stands on, and how the keys move it.

use crate::buoyancy::hydro::Rotation;
use crate::geom::{floor_div, lemma_product_bound, Long, Point};
use crate::lists::contains;
use super::utils::TransformExt;
use vstd::prelude::*;

verus! {

/// Height at which a character appears, in micrometres.
pub const SPAWN_HEIGHT: i64 = 10_000_000;

/// The share of the missing speed that is made up at once, in hundredths.
pub const IMPULSE_PERCENT: i64 = 13;

// ---- What the character stands on ----------------------------------------------------

/// The bodies that the character touches, each once, in the order in which it met them.
#[derive(Debug)]
pub struct Touching {
    handles: Vec<u64>,
}

impl Touching {
    /// The bodies touched.
    pub closed spec fn handles(self) -> Seq<u64> {
        self.handles@
    }

    /// Whether no body is listed twice.
    pub open spec fn wf(self) -> bool {
        self.handles().no_duplicates()
    }

    /// Where `handle` stands in the list.
    pub fn index(&self, handle: u64) -> (i: Option<usize>)
        ensures
            match i {
                Some(i) => {
                    &&& i < self.handles().len()
                    &&& self.handles()[i as int] == handle
                    &&& forall|k: int| 0 <= k < i ==> self.handles()[k] != handle
                },
                None => !self.handles().contains(handle),
            },
    {
        let mut i: usize = 0;
        while i < self.handles.len()
            invariant
                i <= self.handles.len(),
                forall|k: int| 0 <= k < i ==> self.handles@[k] != handle,
            decreases self.handles.len() - i,
        {
            if self.handles[i] == handle {
                return Some(i);
            }
            i = i + 1;
        }
        None
    }

    /// Whether the character touches anything.
    pub fn touching(&self) -> (any: bool)
        ensures
            any == (self.handles().len() > 0),
    {
        self.handles.len() > 0
    }

    /// The bodies touched.
    pub fn list(&self) -> (handles: &[u64])
        ensures
            handles@ == self.handles(),
    {
        self.handles.as_slice()
    }
}

impl Default for Touching {
    /// A character in the air.
    fn default() -> (t: Self)
        ensures
            t.handles() == Seq::<u64>::empty(),
            t.wf(),
    {
        let t = Touching { handles: Vec::new() };
        assert(t.handles() =~= Seq::<u64>::empty());
        t
    }
}

/// Two bodies met or parted.
#[derive(Clone, Copy, Debug, PartialEq, Eq, Structural)]
pub enum ContactEvent {
    Started(u64, u64),
    Stopped(u64, u64),
}

impl ContactEvent {
    /// The body that `me` met or parted from.
    pub open spec fn other(self, me: u64) -> Option<u64> {
        let (a, b) = match self {
            ContactEvent::Started(a, b) => (a, b),
            ContactEvent::Stopped(a, b) => (a, b),
        };
        if a == me {
            Some(b)
        } else if b == me {
            Some(a)
        } else {
            None
        }
    }
}

/// What `me` touches after an event, if it touched `touched` before.
pub open spec fn after_event(touched: Seq<u64>, me: u64, event: ContactEvent) -> Seq<u64> {
    match event.other(me) {
        None => touched,
        Some(other) => match event {
            ContactEvent::Started(_, _) => if touched.contains(other) {
                touched
            } else {
                touched.push(other)
            },
            ContactEvent::Stopped(_, _) => touched.filter(|h: u64| h != other),
        },
    }
}

/// What `me` touches after all the events.
pub open spec fn after_events(touched: Seq<u64>, me: u64, events: Seq<ContactEvent>) -> Seq<u64>
    decreases events.len(),
{
    if events.len() == 0 {
        touched
    } else {
        after_event(after_events(touched, me, events.drop_last()), me, events.last())
    }
}

/// Taking the one copy of `x` out of a list leaves what is not `x`.
proof fn lemma_remove_is_filter(s: Seq<u64>, i: int, x: u64)
    requires
        s.no_duplicates(),
        0 <= i < s.len(),
        s[i] == x,
    ensures
        s.remove(i) == s.filter(|h: u64| h != x),
        s.remove(i).no_duplicates(),
    decreases s.len(),
{
    let keep = |h: u64| h != x;
    reveal(Seq::filter);
    let rest = s.drop_last();
    assert(rest.no_duplicates());
    if i == s.len() - 1 {
        lemma_filter_keeps_all(rest, x);
        assert(s.remove(i) =~= rest);
    } else {
        lemma_remove_is_filter(rest, i, x);
        assert(s.remove(i) =~= rest.remove(i).push(s.last()));
        assert(keep(s.last()));
    }
}

proof fn lemma_filter_keeps_all(s: Seq<u64>, x: u64)
    requires
        !s.contains(x),
    ensures
        s.filter(|h: u64| h != x) == s,
    decreases s.len(),
{
    reveal(Seq::filter);
    if s.len() > 0 {
        let rest = s.drop_last();
        assert(s.contains(s.last()));
        assert forall|h: u64| rest.contains(h) implies s.contains(h) by {
            let k = choose|k: int| 0 <= k < rest.len() && rest[k] == h;
            assert(s[k] == h);
        }
        lemma_filter_keeps_all(rest, x);
        assert(rest.push(s.last()) =~= s);
    } else {
        assert(s.filter(|h: u64| h != x) =~= s);
    }
}

/// The bodies that the character `me` touches once the contacts of a frame are known.
pub fn touching_ground(touching: &mut Touching, me: u64, events: &[ContactEvent])
    requires
        old(touching).wf(),
    ensures
        final(touching).wf(),
        final(touching).handles() == after_events(old(touching).handles(), me, events@),
{
    let ghost before = touching.handles();
    let mut i: usize = 0;
    assert(events@.take(0) =~= Seq::<ContactEvent>::empty());
    while i < events.len()
        invariant
            i <= events.len(),
            touching.wf(),
            touching.handles() == after_events(before, me, events@.take(i as int)),
        decreases events.len() - i,
    {
        let event: ContactEvent = events[i];
        proof {
            assert(events@.take(i + 1).drop_last() =~= events@.take(i as int));
            assert(events@.take(i + 1).last() == event);
        }
        match event {
            ContactEvent::Started(a, b) => {
                if a == me {
                    touching.meet(b);
                } else if b == me {
                    touching.meet(a);
                }
            },
            ContactEvent::Stopped(a, b) => {
                if a == me {
                    touching.part(b);
                } else if b == me {
                    touching.part(a);
                }
            },
        }
        i = i + 1;
    }
    assert(events@.take(i as int) =~= events@);
}

impl Touching {
    /// Adds a body, unless it is listed.
    fn meet(&mut self, other: u64)
        requires
            old(self).wf(),
        ensures
            final(self).wf(),
            final(self).handles() == (if old(self).handles().contains(other) {
                old(self).handles()
            } else {
                old(self).handles().push(other)
            }),
    {
        if !contains(self.handles.as_slice(), other) {
            self.handles.push(other);
        }
    }

    /// Takes a body off the list.
    fn part(&mut self, other: u64)
        requires
            old(self).wf(),
        ensures
            final(self).wf(),
            final(self).handles() == old(self).handles().filter(|h: u64| h != other),
    {
        match self.index(other) {
            Some(i) => {
                proof {
                    lemma_remove_is_filter(self.handles@, i as int, other);
                }
                self.handles.remove(i);
            },
            None => {
                proof {
                    lemma_filter_keeps_all(self.handles@, other);
                }
            },
        }
    }
}

/// The law of contacts: whoever meets a body and parts from it again is left with what
/// it touched before, whether or not it touched the body already, less that body.
pub proof fn law_parting_undoes_meeting(touched: Seq<u64>, me: u64, other: u64)
    requires
        touched.no_duplicates(),
    ensures
        after_events(
            touched,
            me,
            seq![ContactEvent::Started(me, other), ContactEvent::Stopped(me, other)],
        ) == touched.filter(|h: u64| h != other),
        !touched.contains(other) ==> after_events(
            touched,
            me,
            seq![ContactEvent::Started(me, other), ContactEvent::Stopped(me, other)],
        ) == touched,
{
    let (a, b) = (ContactEvent::Started(me, other), ContactEvent::Stopped(me, other));
    let events = seq![a, b];
    reveal_with_fuel(after_events, 3);
    assert(events.drop_last() =~= seq![a]);
    assert(events.drop_last().drop_last() =~= Seq::<ContactEvent>::empty());
    if !touched.contains(other) {
        let met = touched.push(other);
        assert(met.drop_last() =~= touched);
        reveal(Seq::filter);
        assert(met.filter(|h: u64| h != other) == touched.filter(|h: u64| h != other));
        lemma_filter_keeps_all(touched, other);
    }
}

// ---- How the keys move it ------------------------------------------------------------

/// A character as it appears.
#[derive(Clone, Copy, Debug, PartialEq, Eq, Structural)]
pub struct NewCharacter {
    pub translation: Point,
    pub ball_radius: u64,
    pub move_speed: i64,
    pub jump_force: i64,
}

/// A character of this size: a ball that does not turn, above the middle of the platform.
pub fn spawn(size: u64, max_speed: i64, jump_force: i64) -> (c: NewCharacter)
    ensures
        c == (NewCharacter {
            translation: Point { x: 0, y: SPAWN_HEIGHT, z: 0 },
            ball_radius: size / 2,
            move_speed: max_speed,
            jump_force,
        }),
{
    NewCharacter {
        translation: Point { x: 0, y: SPAWN_HEIGHT, z: 0 },
        ball_radius: size / 2,
        move_speed: max_speed,
        jump_force,
    }
}

/// The fastest that anything here moves or is asked to move, in micrometres per second
/// (2^56, more than light does).
pub const SPEED_LIMIT: i64 = 0x100_0000_0000_0000;

/// The strongest push on a key or a stick, in millionths.
pub const INPUT_LIMIT: i64 = 0x2000_0000;

/// The heaviest character, in grams (2^50).
pub const MASS_LIMIT: u64 = 0x4_0000_0000_0000;

/// How much of a speed can be missing (2^61).
pub const CHANGE_LIMIT: i64 = 0x2000_0000_0000_0000;

/// What moves a character.
#[derive(Clone, Copy, Debug, PartialEq, Eq, Structural)]
pub struct Walk {
    /// What the keys and the stick ask for, in millionths.
    pub keyboard: Point,
    pub gamepad: Point,
    /// How the body stands, and how fast it moves, in micrometres per second.
    pub rotation: Rotation,
    pub velocity: Point,
    pub mass: u64,
    /// The speeds at which it wants to walk and to jump.
    pub move_speed: i64,
    pub jump_force: i64,
    pub touching: bool,
}

impl Walk {
    /// Whether everything is of a size that a character can have.
    pub open spec fn valid(self) -> bool {
        &&& self.keyboard.within(INPUT_LIMIT as int)
        &&& self.gamepad.within(INPUT_LIMIT as int)
        &&& self.rotation.valid()
        &&& self.velocity.within(SPEED_LIMIT as int)
        &&& self.mass <= MASS_LIMIT
        &&& 0 <= self.move_speed <= SPEED_LIMIT
        &&& 0 <= self.jump_force <= SPEED_LIMIT
    }

    /// What the keys and the stick ask for together: a unit vector, or nothing.
    pub open spec fn asked(self) -> Point {
        Point {
            x: (self.keyboard.x + self.gamepad.x) as i64,
            y: (self.keyboard.y + self.gamepad.y) as i64,
            z: (self.keyboard.z + self.gamepad.z) as i64,
        }.unit()
    }

    /// The speed that is wanted on the ground: along the body's front by what is asked
    /// ahead, and along its left by what is asked to the right.
    pub open spec fn desired_horizontal(self) -> Point {
        let (x, z) = (self.asked().x, self.asked().z);
        let (f, r) = (self.rotation.z_axis, self.rotation.x_axis);
        Point {
            x: wanted(f.x * z - r.x * x, self.move_speed as int) as i64,
            y: wanted(f.y * z - r.y * x, self.move_speed as int) as i64,
            z: wanted(f.z * z - r.z * x, self.move_speed as int) as i64,
        }
    }

    /// The speed that is wanted upwards.
    pub open spec fn desired_vertical(self) -> Point {
        let y = self.asked().y;
        let u = self.rotation.y_axis;
        Point {
            x: wanted(u.x * y, self.jump_force as int) as i64,
            y: wanted(u.y * y, self.jump_force as int) as i64,
            z: wanted(u.z * y, self.jump_force as int) as i64,
        }
    }

    /// The change of speed along the ground: up to the wanted speed, or to a stop.
    pub open spec fn horizontal_change(self) -> Point {
        let flat = Point { x: self.velocity.x, y: 0, z: self.velocity.z };
        if is_zero(self.desired_horizontal()) {
            Point { x: (-flat.x) as i64, y: 0, z: (-flat.z) as i64 }
        } else {
            speed_up(self.velocity, self.desired_horizontal(), flat)
        }
    }

    /// The change of speed of a jump.
    pub open spec fn vertical_change(self) -> Point {
        if is_zero(self.desired_vertical()) {
            Point { x: 0, y: 0, z: 0 }
        } else {
            speed_up(
                self.velocity,
                self.desired_vertical(),
                Point { x: 0, y: self.velocity.y, z: 0 },
            )
        }
    }
}

/// One coordinate of a wanted speed: a direction in millionths of millionths, times a speed.
pub open spec fn wanted(direction: int, speed: int) -> int {
    ((direction / 1_000_000) * speed) / 1_000_000
}

pub open spec fn is_zero(p: Point) -> bool {
    p.x == 0 && p.y == 0 && p.z == 0
}

/// How fast `velocity` runs along the direction of `desired`, one way or the other.
pub open spec fn speed_along(velocity: Point, desired: Point) -> int {
    let u = desired.direction();
    let d = (velocity.x * u.x + velocity.y * u.y + velocity.z * u.z) / 1_000_000;
    if d < 0 {
        -d
    } else {
        d
    }
}

/// What is missing to the speed `desired`, if the speed along it runs the way of `current`.
pub open spec fn speed_up(velocity: Point, desired: Point, current: Point) -> Point {
    let s = speed_along(velocity, desired);
    let u = current.direction();
    Point {
        x: (desired.x - (s * u.x) / 1_000_000) as i64,
        y: (desired.y - (s * u.y) / 1_000_000) as i64,
        z: (desired.z - (s * u.z) / 1_000_000) as i64,
    }
}

/// The pushes on a character, in grams times micrometres per second.
#[derive(Clone, Copy, Debug, PartialEq, Eq, Structural)]
pub struct Impulses {
    pub horizontal: Long,
    /// Only of one that has something to push off from.
    pub vertical: Option<Long>,
}

/// A push along the ground: weaker in the air.
pub open spec fn horizontal_push(mass: int, change: int, touching: bool) -> int {
    let push = (mass * change * IMPULSE_PERCENT) / 100;
    if touching {
        push
    } else {
        (push * IMPULSE_PERCENT) / 100
    }
}

/// One coordinate of a wanted speed.
fn wanted_axis(direction: i64, speed: i64) -> (v: i64)
    requires
        -8_000_000_000_000 <= direction <= 8_000_000_000_000,
        0 <= speed <= SPEED_LIMIT,
    ensures
        v == wanted(direction as int, speed as int),
        -0x800_0000_0000_0000 <= v <= 0x800_0000_0000_0000,
{
    let d: i128 = floor_div(direction as i128, 1_000_000);
    assert(-8_000_000 <= d <= 8_000_000);
    proof {
        lemma_product_bound(d as int, speed as int, 8_000_000, 0x100_0000_0000_0000);
    }
    let v: i128 = floor_div(d * speed as i128, 1_000_000);
    assert(-0x800_0000_0000_0000 <= v <= 0x800_0000_0000_0000);
    v as i64
}

/// The difference of two products of a direction and a push.
fn mix(f: i64, z: i64, r: i64, x: i64) -> (d: i64)
    requires
        -1_000_000 <= f <= 1_000_000,
        -1_000_000 <= r <= 1_000_000,
        -2_000_000 <= z <= 2_000_000,
        -2_000_000 <= x <= 2_000_000,
    ensures
        d == f * z - r * x,
        -8_000_000_000_000 <= d <= 8_000_000_000_000,
{
    proof {
        lemma_product_bound(f as int, z as int, 1_000_000, 2_000_000);
        lemma_product_bound(r as int, x as int, 1_000_000, 2_000_000);
    }
    f * z - r * x
}

fn is_zero_point(p: &Point) -> (zero: bool)
    ensures
        zero == is_zero(*p),
{
    p.x == 0 && p.y == 0 && p.z == 0
}

/// One coordinate of what is missing to a speed.
fn missing_axis(desired: i64, speed: i64, unit: i64) -> (v: i64)
    requires
        -0x800_0000_0000_0000 <= desired <= 0x800_0000_0000_0000,
        0 <= speed <= 0x700_0000_0000_0000,
        -2_000_000 <= unit <= 2_000_000,
    ensures
        v == desired - (speed * unit) / 1_000_000,
        -CHANGE_LIMIT <= v <= CHANGE_LIMIT,
{
    proof {
        lemma_product_bound(speed as int, unit as int, 0x700_0000_0000_0000, 2_000_000);
    }
    let along: i128 = floor_div(speed as i128 * unit as i128, 1_000_000);
    (desired as i128 - along) as i64
}

/// What is missing to a speed.
fn missing(velocity: &Point, desired: &Point, current: &Point) -> (p: Point)
    requires
        velocity.within(SPEED_LIMIT as int),
        desired.within(0x800_0000_0000_0000),
        current.within(SPEED_LIMIT as int),
    ensures
        p == speed_up(*velocity, *desired, *current),
        p.within(CHANGE_LIMIT as int),
{
    let u: Point = desired.direction_or_zero();
    proof {
        lemma_product_bound(velocity.x as int, u.x as int, 0x100_0000_0000_0000, 2_000_000);
        lemma_product_bound(velocity.y as int, u.y as int, 0x100_0000_0000_0000, 2_000_000);
        lemma_product_bound(velocity.z as int, u.z as int, 0x100_0000_0000_0000, 2_000_000);
    }
    let dot: i128 = velocity.x as i128 * u.x as i128 + velocity.y as i128 * u.y as i128
        + velocity.z as i128 * u.z as i128;
    let d: i64 = floor_div(dot, 1_000_000) as i64;
    let speed: i64 = if d < 0 {
        -d
    } else {
        d
    };
    let along: Point = current.direction_or_zero();
    Point {
        x: missing_axis(desired.x, speed, along.x),
        y: missing_axis(desired.y, speed, along.y),
        z: missing_axis(desired.z, speed, along.z),
    }
}

/// One coordinate of a push along the ground.
fn push_axis(mass: u64, change: i64, touching: bool) -> (v: i128)
    requires
        mass <= MASS_LIMIT,
        -CHANGE_LIMIT <= change <= CHANGE_LIMIT,
    ensures
        v == horizontal_push(mass as int, change as int, touching),
{
    proof {
        lemma_product_bound(mass as int, change as int, 0x4_0000_0000_0000, 0x2000_0000_0000_0000);
    }
    let whole: i128 = mass as i128 * change as i128;
    assert(-0x8000_0000_0000_0000_0000_0000_0000 <= whole <= 0x8000_0000_0000_0000_0000_0000_0000);
    let push: i128 = floor_div(whole * 13, 100);
    if touching {
        push
    } else {
        floor_div(push * 13, 100)
    }
}

/// One coordinate of a jump.
fn jump_axis(mass: u64, change: i64) -> (v: i128)
    requires
        mass <= MASS_LIMIT,
        -CHANGE_LIMIT <= change <= CHANGE_LIMIT,
    ensures
        v == mass * change,
{
    proof {
        lemma_product_bound(mass as int, change as int, 0x4_0000_0000_0000, 0x2000_0000_0000_0000);
    }
    mass as i128 * change as i128
}

/// The pushes by which a character follows the keys: along the ground always, upwards only
/// off something that it touches.
pub fn move_character_based_on_keyboard_input(walk: &Walk) -> (i: Impulses)
    requires
        walk.valid(),
    ensures
        ({
            let (c, m, t) = (walk.horizontal_change(), walk.mass as int, walk.touching);
            &&& i.horizontal.x == horizontal_push(m, c.x as int, t)
            &&& i.horizontal.y == horizontal_push(m, c.y as int, t)
            &&& i.horizontal.z == horizontal_push(m, c.z as int, t)
        }),
        match i.vertical {
            None => !walk.touching,
            Some(v) => {
                let c = walk.vertical_change();
                &&& walk.touching
                &&& v.x == walk.mass * c.x
                &&& v.y == walk.mass * c.y
                &&& v.z == walk.mass * c.z
            },
        },
{
    let asked: Point = Point {
        x: walk.keyboard.x + walk.gamepad.x,
        y: walk.keyboard.y + walk.gamepad.y,
        z: walk.keyboard.z + walk.gamepad.z,
    }.normalize_or_zero();
    let (x, y, z): (i64, i64, i64) = (asked.x, asked.y, asked.z);
    let forward: Point = walk.rotation.z_axis;
    let right: Point = walk.rotation.right();
    let desired: Point = Point {
        x: wanted_axis(mix(forward.x, z, right.x, x), walk.move_speed),
        y: wanted_axis(mix(forward.y, z, right.y, x), walk.move_speed),
        z: wanted_axis(mix(forward.z, z, right.z, x), walk.move_speed),
    };
    let flat: Point = Point { x: walk.velocity.x, y: 0, z: walk.velocity.z };
    let change: Point = if is_zero_point(&desired) {
        Point { x: -flat.x, y: 0, z: -flat.z }
    } else {
        missing(&walk.velocity, &desired, &flat)
    };
    let horizontal: Long = Long {
        x: push_axis(walk.mass, change.x, walk.touching),
        y: push_axis(walk.mass, change.y, walk.touching),
        z: push_axis(walk.mass, change.z, walk.touching),
    };
    let vertical: Option<Long> = if walk.touching {
        let up: Point = walk.rotation.up();
        let desired_up: Point = Point {
            x: wanted_axis(mix(up.x, y, 0, 0), walk.jump_force),
            y: wanted_axis(mix(up.y, y, 0, 0), walk.jump_force),
            z: wanted_axis(mix(up.z, y, 0, 0), walk.jump_force),
        };
        let leap: Point = if is_zero_point(&desired_up) {
            Point { x: 0, y: 0, z: 0 }
        } else {
            missing(&walk.velocity, &desired_up, &Point { x: 0, y: walk.velocity.y, z: 0 })
        };
        Some(
            Long {
                x: jump_axis(walk.mass, leap.x),
                y: jump_axis(walk.mass, leap.y),
                z: jump_axis(walk.mass, leap.z),
            },
        )
    } else {
        None
    };
    Impulses { horizontal, vertical }
}

/// The angle by which the mouse turns the body about the vertical, in microradians: against
/// the yaw.
pub fn rotate_character_based_on_mouse_input(yaw: i64) -> (turn: i64)
    requires
        yaw > i64::MIN,
    ensures
        turn == -yaw,
{
    -yaw
}

/// The law of stopping: without a key, what is pushed runs against the motion along the
/// ground, and nothing is pushed upwards.
pub proof fn law_no_key_no_way(walk: Walk)
    requires
        walk.valid(),
        is_zero(walk.keyboard),
        is_zero(walk.gamepad),
    ensures
        walk.horizontal_change() == (Point {
            x: (-walk.velocity.x) as i64,
            y: 0,
            z: (-walk.velocity.z) as i64,
        }),
        is_zero(walk.vertical_change()),
{
    let (f, r, u) = (walk.rotation.z_axis, walk.rotation.x_axis, walk.rotation.y_axis);
    assert(walk.keyboard.x + walk.gamepad.x == 0);
    assert(f.x * 0 - r.x * 0 == 0 && f.y * 0 - r.y * 0 == 0 && f.z * 0 - r.z * 0 == 0);
    assert(u.x * 0 == 0 && u.y * 0 == 0 && u.z * 0 == 0);
    assert((0int / 1_000_000) * walk.move_speed == 0);
    assert((0int / 1_000_000) * walk.jump_force == 0);
}

// ---- What the contacts and the keys promise ------------------------------------------

/// Whichever of the two is named first, a body that is met is touched and one that is parted
/// from is not; nothing else that is touched changes, and what others do to each other changes
/// nothing at all.
pub proof fn law_contacts_follow_the_events(
    touched: Seq<u64>,
    me: u64,
    other: u64,
    third: u64,
    event: ContactEvent,
)
    requires
        third != other,
    ensures
        event == ContactEvent::Started(me, other) || (event == ContactEvent::Started(other, me)
            && other != me) ==> after_event(touched, me, event).contains(other) && (after_event(
            touched,
            me,
            event,
        ).contains(third) <==> touched.contains(third)),
        event == ContactEvent::Stopped(me, other) || (event == ContactEvent::Stopped(other, me)
            && other != me) ==> !after_event(touched, me, event).contains(other) && (after_event(
            touched,
            me,
            event,
        ).contains(third) <==> touched.contains(third)),
        other != me && third != me && (event == ContactEvent::Started(other, third) || event
            == ContactEvent::Stopped(other, third)) ==> after_event(touched, me, event) == touched,
{
    let after = after_event(touched, me, event);
    if event == ContactEvent::Started(me, other) || (event == ContactEvent::Started(other, me)
        && other != me) {
        assert(event.other(me) == Some(other));
        if !touched.contains(other) {
            assert(after[touched.len() as int] == other);
            if touched.contains(third) {
                let k = choose|k: int| 0 <= k < touched.len() && touched[k] == third;
                assert(after[k] == third);
            }
        }
    }
    if event == ContactEvent::Stopped(me, other) || (event == ContactEvent::Stopped(other, me)
        && other != me) {
        assert(event.other(me) == Some(other));
        lemma_parted(touched, other, other);
        lemma_parted(touched, other, third);
    }
}

proof fn lemma_parted(touched: Seq<u64>, other: u64, x: u64)
    ensures
        touched.filter(|h: u64| h != other).contains(x) <==> touched.contains(x) && x != other,
    decreases touched.len(),
{
    reveal(Seq::filter);
    let p = |h: u64| h != other;
    let after = touched.filter(p);
    if touched.len() > 0 {
        let (front, last) = (touched.drop_last(), touched.last());
        lemma_parted(front, other, x);
        let sub = front.filter(p);
        assert(after == if p(last) {
            sub.push(last)
        } else {
            sub
        });
        if touched.contains(x) {
            let k = choose|k: int| 0 <= k < touched.len() && touched[k] == x;
            if k < touched.len() - 1 {
                assert(front[k] == x);
            }
        }
        if front.contains(x) {
            let k = choose|k: int| 0 <= k < front.len() && front[k] == x;
            assert(touched[k] == x);
        }
        assert(touched[touched.len() - 1] == last);
        if sub.contains(x) {
            let k = choose|k: int| 0 <= k < sub.len() && sub[k] == x;
            assert(after[k] == x);
        }
        if p(last) {
            assert(after[sub.len() as int] == last);
        }
    }
}

/// What is asked for is the direction of the keys and the stick added up.
pub proof fn law_keys_and_stick_add_up(walk: Walk)
    requires
        walk.valid(),
    ensures
        exists|sum: Point|
            {
                &&& sum.x == walk.keyboard.x + walk.gamepad.x
                &&& sum.y == walk.keyboard.y + walk.gamepad.y
                &&& sum.z == walk.keyboard.z + walk.gamepad.z
                &&& walk.asked() == #[trigger] sum.unit()
            },
{
    let sum = Point {
        x: (walk.keyboard.x + walk.gamepad.x) as i64,
        y: (walk.keyboard.y + walk.gamepad.y) as i64,
        z: (walk.keyboard.z + walk.gamepad.z) as i64,
    };
    assert(walk.asked() == sum.unit());
}

/// A wanted speed is the share of the full speed that its direction has, to within a micrometre
/// per second and a millionth of the speed.
pub proof fn law_a_wanted_speed_is_a_share(direction: int, speed: int)
    requires
        0 <= speed,
    ensures
        1_000_000_000_000 * wanted(direction, speed) <= direction * speed < 1_000_000_000_000
            * wanted(direction, speed) + 1_000_000_000_000 + 1_000_000 * speed,
{
    let d = direction / 1_000_000;
    assert(1_000_000 * d <= direction < 1_000_000 * d + 1_000_000);
    assert(1_000_000 * (d * speed) <= direction * speed) by (nonlinear_arith)
        requires
            1_000_000 * d <= direction,
            0 <= speed,
    ;
    assert(direction * speed <= 1_000_000 * (d * speed) + 1_000_000 * speed) by (nonlinear_arith)
        requires
            direction <= 1_000_000 * d + 1_000_000,
            0 <= speed,
    ;
    let w = (d * speed) / 1_000_000;
    assert(1_000_000 * w <= d * speed < 1_000_000 * w + 1_000_000);
}

/// A body that stands straight and looks along z walks along z by what is asked ahead, and
/// against x by what is asked to the right; it jumps up by what is asked upwards.
pub proof fn law_walking_follows_the_body(walk: Walk)
    requires
        walk.valid(),
        walk.asked().within(2_000_000),
        walk.rotation.x_axis == (Point { x: 1_000_000, y: 0, z: 0 }),
        walk.rotation.y_axis == (Point { x: 0, y: 1_000_000, z: 0 }),
        walk.rotation.z_axis == (Point { x: 0, y: 0, z: 1_000_000 }),
    ensures
        ({
            let (a, speed, jump) = (walk.asked(), walk.move_speed, walk.jump_force);
            let (h, v) = (walk.desired_horizontal(), walk.desired_vertical());
            &&& 1_000_000 * h.z <= a.z * speed < 1_000_000 * h.z + 1_000_000
            &&& 1_000_000 * h.x <= (-a.x) * speed < 1_000_000 * h.x + 1_000_000
            &&& h.y == 0
            &&& 1_000_000 * v.y <= a.y * jump < 1_000_000 * v.y + 1_000_000
            &&& v.x == 0 && v.z == 0
        }),
{
    let a = walk.asked();
    let (x, y, z) = (a.x as int, a.y as int, a.z as int);
    let (s, j) = (walk.move_speed as int, walk.jump_force as int);
    assert(1_000_000 * z - 0 * x == 1_000_000 * z);
    assert(0 * z - 1_000_000 * x == 1_000_000 * (-x));
    assert(0 * z - 0 * x == 0 && 0 * y == 0);
    assert((1_000_000 * z) / 1_000_000 == z);
    assert((1_000_000 * (-x)) / 1_000_000 == -x);
    assert((1_000_000 * y) / 1_000_000 == y);
    assert(0 * s == 0 && 0 * j == 0) by (nonlinear_arith);
    lemma_product_bound(z, s, 2_000_000, 0x100_0000_0000_0000);
    lemma_product_bound(-x, s, 2_000_000, 0x100_0000_0000_0000);
    lemma_product_bound(y, j, 2_000_000, 0x100_0000_0000_0000);
}

/// Turned by a quarter, the body walks along x by what is asked ahead.
pub proof fn law_a_turned_body_walks_its_own_way(walk: Walk)
    requires
        walk.valid(),
        walk.asked().within(2_000_000),
        walk.rotation.x_axis == (Point { x: 0, y: 0, z: (-1_000_000) as i64 }),
        walk.rotation.z_axis == (Point { x: 1_000_000, y: 0, z: 0 }),
    ensures
        ({
            let (a, speed) = (walk.asked(), walk.move_speed);
            let h = walk.desired_horizontal();
            &&& 1_000_000 * h.x <= a.z * speed < 1_000_000 * h.x + 1_000_000
            &&& 1_000_000 * h.z <= a.x * speed < 1_000_000 * h.z + 1_000_000
            &&& h.y == 0
        }),
{
    let a = walk.asked();
    let (x, z) = (a.x as int, a.z as int);
    let s = walk.move_speed as int;
    assert(1_000_000 * z - 0 * x == 1_000_000 * z);
    assert(0 * z - (-1_000_000) * x == 1_000_000 * x);
    assert(0 * z - 0 * x == 0);
    assert((1_000_000 * z) / 1_000_000 == z);
    assert((1_000_000 * x) / 1_000_000 == x);
    assert(0 * s == 0) by (nonlinear_arith);
    lemma_product_bound(z, s, 2_000_000, 0x100_0000_0000_0000);
    lemma_product_bound(x, s, 2_000_000, 0x100_0000_0000_0000);
}

/// The speed along a direction is that of the motion's share in it, whichever way it runs.
pub proof fn law_speed_along_is_the_share(velocity: Point, desired: Point)
    ensures
        ({
            let u = desired.direction();
            let dot = velocity.x * u.x + velocity.y * u.y + velocity.z * u.z;
            let s = speed_along(velocity, desired);
            &&& 0 <= s
            &&& dot >= 0 ==> 1_000_000 * s <= dot < 1_000_000 * s + 1_000_000
            &&& dot <= 0 ==> 1_000_000 * s - 1_000_000 < -dot <= 1_000_000 * s
        }),
{
}

/// What is missing to a speed is the speed that is wanted less the one that is there, which runs
/// the way of the motion, axis by axis.
pub proof fn law_what_is_missing_is_made_up(velocity: Point, desired: Point, current: Point)
    requires
        velocity.within(SPEED_LIMIT as int),
        desired.within(0x800_0000_0000_0000),
        current.within(SPEED_LIMIT as int),
    ensures
        ({
            let (s, u) = (speed_along(velocity, desired), current.direction());
            let p = speed_up(velocity, desired, current);
            &&& 1_000_000 * (desired.x - p.x) <= s * u.x < 1_000_000 * (desired.x - p.x) + 1_000_000
            &&& 1_000_000 * (desired.y - p.y) <= s * u.y < 1_000_000 * (desired.y - p.y) + 1_000_000
            &&& 1_000_000 * (desired.z - p.z) <= s * u.z < 1_000_000 * (desired.z - p.z) + 1_000_000
        }),
{
    crate::geom::lemma_direction_bound(desired);
    crate::geom::lemma_direction_bound(current);
    let (d, u) = (desired.direction(), current.direction());
    let s = speed_along(velocity, desired);
    lemma_product_bound(velocity.x as int, d.x as int, 0x100_0000_0000_0000, 2_000_000);
    lemma_product_bound(velocity.y as int, d.y as int, 0x100_0000_0000_0000, 2_000_000);
    lemma_product_bound(velocity.z as int, d.z as int, 0x100_0000_0000_0000, 2_000_000);
    assert(0 <= s <= 0x700_0000_0000_0000);
    lemma_product_bound(s, u.x as int, 0x700_0000_0000_0000, 2_000_000);
    lemma_product_bound(s, u.y as int, 0x700_0000_0000_0000, 2_000_000);
    lemma_product_bound(s, u.z as int, 0x700_0000_0000_0000, 2_000_000);
}

/// A walker who wants somewhere makes up what is missing along the ground, a jumper upwards;
/// neither minds the motion the other way.
pub proof fn law_walking_and_jumping_are_apart(walk: Walk)
    ensures
        !is_zero(walk.desired_horizontal()) ==> walk.horizontal_change() == speed_up(
            walk.velocity,
            walk.desired_horizontal(),
            Point { x: walk.velocity.x, y: 0, z: walk.velocity.z },
        ),
        !is_zero(walk.desired_vertical()) ==> walk.vertical_change() == speed_up(
            walk.velocity,
            walk.desired_vertical(),
            Point { x: 0, y: walk.velocity.y, z: 0 },
        ),
        is_zero(walk.desired_vertical()) ==> is_zero(walk.vertical_change()),
{
}

/// On the ground thirteen hundredths of what is missing are made up at once, and in the air
/// thirteen hundredths of that; the push runs the way of what is missing.
pub proof fn law_pushes_are_weaker_in_the_air(mass: int, change: int)
    requires
        0 <= mass,
    ensures
        100 * horizontal_push(mass, change, true) <= 13 * (mass * change) < 100 * horizontal_push(
            mass,
            change,
            true,
        ) + 100,
        100 * horizontal_push(mass, change, false) <= 13 * horizontal_push(mass, change, true) < 100
            * horizontal_push(mass, change, false) + 100,
        change >= 0 ==> 0 <= horizontal_push(mass, change, false) <= horizontal_push(
            mass,
            change,
            true,
        ),
        change <= 0 ==> horizontal_push(mass, change, false) <= 0,
{
    assert(change >= 0 ==> mass * change >= 0) by (nonlinear_arith)
        requires
            0 <= mass,
    ;
    assert(change <= 0 ==> mass * change <= 0) by (nonlinear_arith)
        requires
            0 <= mass,
    ;
}

} // verus!
