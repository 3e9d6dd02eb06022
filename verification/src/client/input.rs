//! Keyboard, mouse and stick as the player's intent. Directions are in millionths: `x`
//! strafes, `y` jumps, `z` goes forward.

use crate::client::gamepad::Gamepad;
use crate::client::AppState;
use crate::geom::{Point, UNIT};
use vstd::prelude::*;

verus! {

/// The keys that are held.
#[derive(Clone, Copy, Debug, PartialEq, Eq, Structural)]
pub struct Keys {
    pub w: bool,
    pub a: bool,
    pub s: bool,
    pub d: bool,
    pub space: bool,
    pub shift_left: bool,
    pub shift_right: bool,
}

/// One for a held key.
pub open spec fn held(key: bool) -> int {
    if key {
        UNIT as int
    } else {
        0
    }
}

/// Where the keys point.
pub open spec fn key_direction(keys: Keys, state: AppState) -> Point {
    if state == AppState::InGame {
        Point {
            x: (held(keys.d) - held(keys.a)) as i64,
            y: held(keys.space) as i64,
            z: (held(keys.w) - held(keys.s)) as i64,
        }
    } else {
        Point { x: 0, y: 0, z: 0 }
    }
}

/// The sum of two directions.
pub open spec fn plus(a: Point, b: Point) -> Point {
    Point { x: (a.x + b.x) as i64, y: (a.y + b.y) as i64, z: (a.z + b.z) as i64 }
}

/// A direction that a player may hold: no longer than two units along any axis.
pub open spec fn is_direction(p: Point) -> bool {
    p.within(2_000_000)
}

/// Where the keys point; nowhere outside the game.
pub fn keyboard_direction(keys: &Keys, state: AppState) -> (dir: Point)
    ensures
        dir == key_direction(*keys, state),
        dir.within(1_000_000),
{
    let mut dir: Point = Point::zero();
    if state == AppState::InGame {
        if keys.w {
            dir.z = dir.z + 1_000_000;
        }
        if keys.s {
            dir.z = dir.z - 1_000_000;
        }
        if keys.d {
            dir.x = dir.x + 1_000_000;
        }
        if keys.a {
            dir.x = dir.x - 1_000_000;
        }
        if keys.space {
            dir.y = dir.y + 1_000_000;
        }
    }
    dir
}

/// Adds `dir` to every direction of `inputs` and makes unit vectors of them.
pub fn add_direction(inputs: &mut Vec<Point>, dir: &Point)
    requires
        is_direction(*dir),
        forall|i: int| 0 <= i < old(inputs)@.len() ==> is_direction(#[trigger] old(inputs)@[i]),
    ensures
        final(inputs)@ == old(inputs)@.map_values(|p: Point| plus(p, *dir).unit()),
        forall|i: int| 0 <= i < final(inputs)@.len() ==> is_direction(#[trigger] final(inputs)@[i]),
{
    let mut i: usize = 0;
    while i < inputs.len()
        invariant
            i <= inputs.len() == old(inputs).len(),
            is_direction(*dir),
            forall|k: int| 0 <= k < old(inputs)@.len() ==> is_direction(#[trigger] old(inputs)@[k]),
            forall|k: int|
                0 <= k < i ==> #[trigger] inputs@[k] == plus(old(inputs)@[k], *dir).unit()
                    && is_direction(inputs@[k]),
            forall|k: int| i <= k < inputs@.len() ==> #[trigger] inputs@[k] == old(inputs)@[k],
        decreases inputs.len() - i,
    {
        let p: Point = inputs[i];
        assert(is_direction(old(inputs)@[i as int]));
        let sum: Point = Point { x: p.x + dir.x, y: p.y + dir.y, z: p.z + dir.z };
        inputs.set(i, sum.normalize_or_zero());
        i = i + 1;
    }
    assert(inputs@ =~= old(inputs)@.map_values(|p: Point| plus(p, *dir).unit()));
}

/// Adds the keys to the players' directions.
pub fn process_keyboard_input(keys: &Keys, state: AppState, inputs: &mut Vec<Point>)
    requires
        forall|i: int| 0 <= i < old(inputs)@.len() ==> is_direction(#[trigger] old(inputs)@[i]),
    ensures
        final(inputs)@ == old(inputs)@.map_values(
            |p: Point| plus(p, key_direction(*keys, state)).unit(),
        ),
{
    let dir: Point = keyboard_direction(keys, state);
    add_direction(inputs, &dir);
}

/// The look of this frame: the last motion of the mouse, and nothing outside the game.
pub fn get_look(events: &[Point], state: AppState) -> (look: Point)
    ensures
        look == (if state == AppState::InGame && events@.len() > 0 {
            events@.last()
        } else {
            Point { x: 0, y: 0, z: 0 }
        }),
{
    if state == AppState::InGame && events.len() > 0 {
        events[events.len() - 1]
    } else {
        Point::zero()
    }
}

/// Whether a press of the left button is a click of the player.
pub fn process_mouse_clicks(left_just_pressed: bool, state: AppState) -> (click: bool)
    ensures
        click == (state == AppState::InGame && left_just_pressed),
{
    state == AppState::InGame && left_just_pressed
}

/// Sets the first player's click flag.
pub fn get_left_click(left_just_pressed: bool, state: AppState, clicked: &mut Vec<bool>)
    ensures
        final(clicked)@ == (if old(clicked)@.len() == 0 {
            old(clicked)@
        } else {
            old(clicked)@.update(0, state == AppState::InGame && left_just_pressed)
        }),
{
    if clicked.len() > 0 {
        clicked.set(0, state == AppState::InGame && left_just_pressed);
    }
}

/// Sets the first player's modifier from the Shift keys.
pub fn get_modifying(keys: &Keys, state: AppState, modifying: &mut Vec<bool>)
    ensures
        final(modifying)@ == (if old(modifying)@.len() == 0 {
            old(modifying)@
        } else {
            old(modifying)@.update(
                0,
                state == AppState::InGame && (keys.shift_left || keys.shift_right),
            )
        }),
{
    if modifying.len() > 0 {
        modifying.set(0, state == AppState::InGame && (keys.shift_left || keys.shift_right));
    }
}

/// A stick that is pushed no further than this is at rest.
pub const STICK_REST: i32 = 10_000;

/// The axis value, unless the stick is at rest or missing.
pub open spec fn pushed(axis: Option<i32>, resting: int) -> int {
    match axis {
        Some(v) => if -STICK_REST <= v <= STICK_REST {
            resting
        } else {
            v as int
        },
        None => resting,
    }
}

/// Where the sticks of the first `n` pads point: the last pushed one counts on each axis,
/// and every jump button adds up.
pub open spec fn stick_direction(pads: Seq<Gamepad>, n: int) -> (int, int, int)
    decreases n,
{
    if n <= 0 {
        (0, 0, 0)
    } else {
        let (x, y, z) = stick_direction(pads, n - 1);
        let pad = pads[n - 1];
        (
            pushed(pad.left_x, x),
            y + held(pad.just_pressed.south),
            pushed(pad.left_y, z),
        )
    }
}

/// Sets the players' stick directions from the pads.
pub fn gamepad_system(pads: &[Gamepad], inputs: &mut Vec<Point>)
    requires
        pads@.len() <= 1000,
        forall|i: int|
            0 <= i < pads@.len() ==> {
                &&& (#[trigger] pads@[i]).left_x matches Some(v) ==> -0x4000_0000 <= v <= 0x4000_0000
                &&& pads@[i].left_y matches Some(v) ==> -0x4000_0000 <= v <= 0x4000_0000
            },
    ensures
        final(inputs)@.len() == old(inputs)@.len(),
        forall|i: int|
            0 <= i < final(inputs)@.len() ==> #[trigger] final(inputs)@[i] == ({
                let (x, y, z) = stick_direction(pads@, pads@.len() as int);
                Point { x: x as i64, y: y as i64, z: z as i64 }.unit()
            }),
{
    let mut dir: Point = Point::zero();
    let mut i: usize = 0;
    while i < pads.len()
        invariant
            i <= pads.len() <= 1000,
            forall|k: int|
                0 <= k < pads@.len() ==> {
                    &&& (#[trigger] pads@[k]).left_x matches Some(v) ==> -0x4000_0000 <= v <= 0x4000_0000
                    &&& pads@[k].left_y matches Some(v) ==> -0x4000_0000 <= v <= 0x4000_0000
                },
            (dir.x as int, dir.y as int, dir.z as int) == stick_direction(pads@, i as int),
            -0x4000_0000 <= dir.x <= 0x4000_0000,
            0 <= dir.y <= i * 1_000_000,
            -0x4000_0000 <= dir.z <= 0x4000_0000,
        decreases pads.len() - i,
    {
        assert(pads@[i as int] == pads@[i as int]);
        if let Some(v) = pads[i].left_x {
            if v > STICK_REST || v < -STICK_REST {
                dir.x = v as i64;
            }
        }
        if let Some(v) = pads[i].left_y {
            if v > STICK_REST || v < -STICK_REST {
                dir.z = v as i64;
            }
        }
        if pads[i].just_pressed.south {
            dir.y = dir.y + 1_000_000;
        }
        i = i + 1;
    }
    let unit: Point = dir.normalize_or_zero();
    let mut k: usize = 0;
    while k < inputs.len()
        invariant
            k <= inputs.len() == old(inputs).len(),
            forall|j: int| 0 <= j < k ==> #[trigger] inputs@[j] == unit,
        decreases inputs.len() - k,
    {
        inputs.set(k, unit);
        k = k + 1;
    }
}

/// In which unit a wheel reports.
#[derive(Clone, Copy, Debug, PartialEq, Eq, Structural)]
pub enum ScrollUnit {
    Line,
    Pixel,
}

/// A turn of the wheel, in millionths of its unit.
#[derive(Clone, Copy, Debug, PartialEq, Eq, Structural)]
pub struct Wheel {
    pub unit: ScrollUnit,
    pub y: i64,
}

/// Pixels that make a line.
pub const PIXELS_PER_LINE: i64 = 108;

/// The turn of the wheel in lines, rounded towards zero.
pub open spec fn wheel_lines(w: Wheel) -> int {
    match w.unit {
        ScrollUnit::Line => w.y as int,
        ScrollUnit::Pixel => if w.y >= 0 {
            w.y as int / PIXELS_PER_LINE as int
        } else {
            -((-w.y) / (PIXELS_PER_LINE as int))
        },
    }
}

/// The scroll of this frame: the last turn of the wheel, or none.
pub fn mouse_wheel(events: &[Wheel]) -> (lines: i64)
    requires
        events@.len() > 0 ==> events@.last().y > i64::MIN,
    ensures
        lines == (if events@.len() == 0 {
            0
        } else {
            wheel_lines(events@.last())
        }),
{
    if events.len() == 0 {
        return 0;
    }
    let w: Wheel = events[events.len() - 1];
    match w.unit {
        ScrollUnit::Line => w.y,
        ScrollUnit::Pixel => if w.y >= 0 {
            w.y / PIXELS_PER_LINE
        } else {
            -((-w.y) / PIXELS_PER_LINE)
        },
    }
}

/// `v` brought to at least `min`, and then to at most `max`.
pub open spec fn bounded(v: int, min: int, max: int) -> int {
    let raised = if v >= min {
        v
    } else {
        min
    };
    if raised <= max {
        raised
    } else {
        max
    }
}

/// The camera's distance after a scroll that asks for `change`. While the modifier is held
/// the wheel means something else.
pub fn zoom_camera(distance: i64, change: i64, min: i64, max: i64, modifying: bool) -> (d: i64)
    ensures
        d == (if modifying {
            distance as int
        } else {
            bounded(distance - change, min as int, max as int)
        }),
{
    if modifying {
        return distance;
    }
    let wanted: i128 = distance as i128 - change as i128;
    let raised: i128 = if wanted >= min as i128 { wanted } else { min as i128 };
    if raised <= max as i128 {
        raised as i64
    } else {
        max
    }
}

/// A camera never leaves the range it is allowed.
pub proof fn law_zoom_stays_in_range(v: int, min: int, max: int)
    requires
        min <= max,
    ensures
        min <= bounded(v, min, max) <= max,
        min <= v <= max ==> bounded(v, min, max) == v,
{
}

/// Opposite keys cancel, and the player stands still outside the game.
pub proof fn law_opposite_keys_cancel(keys: Keys, state: AppState)
    ensures
        keys.w == keys.s ==> key_direction(keys, state).z == 0,
        keys.a == keys.d ==> key_direction(keys, state).x == 0,
        state != AppState::InGame ==> key_direction(keys, state).len2() == 0,
{
}

/// W goes forward and S back, D strafes to the right and A to the left, and the space bar
/// jumps; one key alone asks for a full deflection.
pub proof fn law_keys_lead_their_way(keys: Keys)
    ensures
        ({
            let d = key_direction(keys, AppState::InGame);
            &&& keys.w && !keys.s ==> d.z == 1_000_000
            &&& keys.s && !keys.w ==> d.z == -1_000_000
            &&& keys.d && !keys.a ==> d.x == 1_000_000
            &&& keys.a && !keys.d ==> d.x == -1_000_000
            &&& keys.space ==> d.y == 1_000_000
            &&& !keys.space ==> d.y == 0
        }),
{
}

/// A direction that is added moves each coordinate by its own, and nothing else.
pub proof fn law_directions_add_up(a: Point, b: Point)
    requires
        is_direction(a),
        is_direction(b),
    ensures
        plus(a, b).x - a.x == b.x,
        plus(a, b).y - a.y == b.y,
        plus(a, b).z - a.z == b.z,
{
}

/// A stick that is pushed sets its own axis, one at rest leaves what the pads before it
/// said, and each jump button jumps.
pub proof fn law_the_last_pushed_stick_counts(pads: Seq<Gamepad>, n: int, x: i32, y: i32)
    requires
        0 <= n < pads.len(),
        pads[n].left_x == Some(x),
        pads[n].left_y == Some(y),
    ensures
        ({
            let before = stick_direction(pads, n);
            let after = stick_direction(pads, n + 1);
            &&& x > 10_000 || x < -10_000 ==> after.0 == x
            &&& y > 10_000 || y < -10_000 ==> after.2 == y
            &&& -10_000 <= x <= 10_000 ==> after.0 == before.0
            &&& -10_000 <= y <= 10_000 ==> after.2 == before.2
            &&& pads[n].just_pressed.south ==> after.1 == before.1 + 1_000_000
            &&& !pads[n].just_pressed.south ==> after.1 == before.1
        }),
        stick_direction(pads, 0) == (0int, 0int, 0int),
{
}

/// A missing axis leaves what the pads before it said.
pub proof fn law_a_missing_axis_says_nothing(pads: Seq<Gamepad>, n: int)
    requires
        0 <= n < pads.len(),
    ensures
        pads[n].left_x is None ==> stick_direction(pads, n + 1).0 == stick_direction(pads, n).0,
        pads[n].left_y is None ==> stick_direction(pads, n + 1).2 == stick_direction(pads, n).2,
{
}

/// A wheel that reports lines is taken at its word; one that reports pixels turns a line for
/// every hundred and eight of them, the same way.
pub proof fn law_pixels_make_lines(y: i64, k: int)
    requires
        y > i64::MIN,
    ensures
        wheel_lines(Wheel { unit: ScrollUnit::Line, y }) == y,
        y == 108 * k ==> wheel_lines(Wheel { unit: ScrollUnit::Pixel, y }) == k,
        -108 < y - 108 * wheel_lines(Wheel { unit: ScrollUnit::Pixel, y }) < 108,
        y >= 0 ==> wheel_lines(Wheel { unit: ScrollUnit::Pixel, y }) >= 0,
        y <= 0 ==> wheel_lines(Wheel { unit: ScrollUnit::Pixel, y }) <= 0,
{
}

/// A distance below the range becomes the nearest one, and one above it the furthest.
pub proof fn law_zoom_stops_at_the_ends(v: int, min: int, max: int)
    requires
        min <= max,
    ensures
        v <= min ==> bounded(v, min, max) == min,
        v >= max ==> bounded(v, min, max) == max,
{
}

} // verus!
