//! Gamepad controls: the left stick moves, the right stick looks, the triggers click and
//! modify. Stick values are in millionths of a full deflection.

use crate::client::AppState;
use crate::geom::{floor_sqrt, integer_sqrt, lemma_floor_sqrt_exists, lemma_floor_sqrt_unique};
use crate::geom::{lemma_product_bound, scaled, Point};
use vstd::prelude::*;

verus! {

/// A stick that is pushed no further than this reads zero.
pub const STICK_DEADZONE: i32 = 120_000;

/// Look of a fully pushed right stick, per frame.
pub const LOOK_SPEED: i64 = 9;

/// A flag for each button.
#[derive(Clone, Copy, Debug, PartialEq, Eq, Structural)]
pub struct Buttons {
    pub south: bool,
    pub east: bool,
    pub west: bool,
    pub north: bool,
    pub start: bool,
    pub select: bool,
    pub left_trigger: bool,
    pub right_trigger: bool,
    pub left_trigger2: bool,
    pub right_trigger2: bool,
}

/// What a pad reports in a frame.
#[derive(Clone, Copy, Debug, PartialEq, Eq, Structural)]
pub struct Gamepad {
    pub just_pressed: Buttons,
    pub pressed: Buttons,
    pub left_x: Option<i32>,
    pub left_y: Option<i32>,
    pub right_x: Option<i32>,
    pub right_y: Option<i32>,
}

/// Whether a controller has been used.
#[derive(Clone, Copy, Debug, PartialEq, Eq, Structural)]
pub struct GamepadActive(pub bool);

impl Default for GamepadActive {
    fn default() -> (active: Self)
        ensures
            !active.0,
    {
        GamepadActive(false)
    }
}

/// Whether one of the buttons is pressed that count as using the controller.
pub open spec fn activates(b: Buttons) -> bool {
    b.south || b.east || b.west || b.north || b.start || b.select || b.left_trigger
        || b.right_trigger
}

/// How far a stick is pushed, by its two axes.
pub open spec fn push_of(x: int, y: int) -> int {
    floor_sqrt((x * x + y * y) as nat) as int
}

/// An axis that a pad lacks is at rest.
pub open spec fn reading(axis: Option<i32>) -> int {
    match axis {
        Some(v) => v as int,
        None => 0,
    }
}

/// Whether the stick is pushed past the dead zone.
pub open spec fn past_deadzone(x: Option<i32>, y: Option<i32>) -> bool {
    push_of(reading(x), reading(y)) > STICK_DEADZONE
}

/// Whether the pad is in use: a button was pressed, or the left stick is pushed.
pub open spec fn in_use(pad: Gamepad) -> bool {
    activates(pad.just_pressed) || past_deadzone(pad.left_x, pad.left_y)
}

/// What is left of a deflection behind the round dead zone: the same way, with what is left
/// of its length stretched back to the full range.
pub open spec fn behind_deadzone(x: int, y: int) -> (int, int) {
    let push = push_of(x, y);
    if push <= STICK_DEADZONE {
        (0, 0)
    } else {
        let (num, den) = ((push - STICK_DEADZONE) * 1_000_000, push * 880_000);
        (scaled(x, num, den), scaled(y, num, den))
    }
}

/// How far a stick is pushed.
fn push_length(x: i32, y: i32) -> (push: u64)
    ensures
        push == push_of(x as int, y as int),
        push < 0x1_0000_0000,
{
    proof {
        lemma_product_bound(x as int, x as int, 0x8000_0000, 0x8000_0000);
        lemma_product_bound(y as int, y as int, 0x8000_0000, 0x8000_0000);
        assert(x * x >= 0 && y * y >= 0) by (nonlinear_arith);
    }
    let (wide_x, wide_y): (i128, i128) = (x as i128, y as i128);
    let square: u128 = (wide_x * wide_x + wide_y * wide_y) as u128;
    let push: u64 = integer_sqrt(square);
    proof {
        lemma_floor_sqrt_exists(square as nat);
        assert(push < 0x1_0000_0000) by (nonlinear_arith)
            requires
                push * push <= 0x8000_0000_0000_0000,
        ;
    }
    push
}

/// One axis of [`deadzone`].
fn stretched(v: i32, push: u64) -> (r: i64)
    requires
        120_000 < push < 0x1_0000_0000,
    ensures
        r == scaled(v as int, (push - STICK_DEADZONE) * 1_000_000, push * 880_000),
        -0x1_0000_0000 <= r <= 0x1_0000_0000,
{
    let magnitude: u64 = if v >= 0 {
        v as u64
    } else {
        (-(v as i64)) as u64
    };
    let num: u128 = (push - 120_000) as u128 * 1_000_000;
    let den: u128 = push as u128 * 880_000;
    proof {
        lemma_product_bound(magnitude as int, num as int, 0x8000_0000, 4_294_967_296_000_000);
        assert(0 <= magnitude * num) by (nonlinear_arith);
        assert((magnitude * num) / den as int <= 0x1_0000_0000) by (nonlinear_arith)
            requires
                0 <= magnitude <= 0x8000_0000,
                num == (push - 120_000) * 1_000_000,
                den == push * 880_000,
                120_000 < push,
        {
            assert(magnitude * num <= 0x8000_0000 * num);
            assert(0x8000_0000 * num <= 0x1_0000_0000 * den);
        }
    }
    let q: i64 = (magnitude as u128 * num / den) as i64;
    if v >= 0 {
        q
    } else {
        -q
    }
}

/// What is left of a stick's deflection behind the dead zone.
pub fn deadzone(x: i32, y: i32) -> (r: (i64, i64))
    ensures
        (r.0 as int, r.1 as int) == behind_deadzone(x as int, y as int),
        -0x1_0000_0000 <= r.0 <= 0x1_0000_0000,
        -0x1_0000_0000 <= r.1 <= 0x1_0000_0000,
{
    let push: u64 = push_length(x, y);
    if push <= 120_000 {
        (0, 0)
    } else {
        (stretched(x, push), stretched(y, push))
    }
}

fn button_pressed(b: &Buttons) -> (yes: bool)
    ensures
        yes == activates(*b),
{
    b.south || b.east || b.west || b.north || b.start || b.select || b.left_trigger
        || b.right_trigger
}

fn read(axis: Option<i32>) -> (v: i32)
    ensures
        v == reading(axis),
{
    match axis {
        Some(v) => v,
        None => 0,
    }
}

fn pushed_past(x: Option<i32>, y: Option<i32>) -> (yes: bool)
    ensures
        yes == past_deadzone(x, y),
{
    push_length(read(x), read(y)) > 120_000
}

/// Whether any pad is in use.
pub fn any_activation(pads: &[Gamepad]) -> (yes: bool)
    ensures
        yes == exists|i: int| 0 <= i < pads@.len() && in_use(#[trigger] pads@[i]),
{
    let mut i: usize = 0;
    while i < pads.len()
        invariant
            i <= pads.len(),
            forall|k: int| 0 <= k < i ==> !in_use(#[trigger] pads@[k]),
        decreases pads.len() - i,
    {
        if button_pressed(&pads[i].just_pressed) || pushed_past(pads[i].left_x, pads[i].left_y) {
            assert(in_use(pads@[i as int]));
            return true;
        }
        i = i + 1;
    }
    false
}

/// Remembers the first use of a controller.
pub fn detect_gamepad(pads: &[Gamepad], active: &mut GamepadActive)
    ensures
        final(active).0 == (old(active).0 || exists|i: int|
            0 <= i < pads@.len() && in_use(#[trigger] pads@[i])),
{
    if !active.0 && any_activation(pads) {
        active.0 = true;
    }
}

/// Any button starts the game.
pub fn start_game_on_button(pads: &[Gamepad]) -> (next: Option<AppState>)
    ensures
        next == (if exists|i: int|
            0 <= i < pads@.len() && activates((#[trigger] pads@[i]).just_pressed) {
            Some(AppState::InGame)
        } else {
            None
        }),
{
    let mut i: usize = 0;
    while i < pads.len()
        invariant
            i <= pads.len(),
            forall|k: int| 0 <= k < i ==> !activates((#[trigger] pads@[k]).just_pressed),
        decreases pads.len() - i,
    {
        if button_pressed(&pads[i].just_pressed) {
            assert(activates(pads@[i as int].just_pressed));
            return Some(AppState::InGame);
        }
        i = i + 1;
    }
    None
}

/// Whether a Start button was pressed.
pub open spec fn start_pressed(pads: Seq<Gamepad>) -> bool {
    exists|i: int| 0 <= i < pads.len() && (#[trigger] pads[i]).just_pressed.start
}

/// The other side of the pause menu.
pub open spec fn menu_toggled(state: AppState) -> Option<AppState> {
    match state {
        AppState::InGame => Some(AppState::InGameMenu),
        AppState::InGameMenu => Some(AppState::InGame),
        AppState::Initial => None,
    }
}

/// Start opens and closes the pause menu, once a controller is in use.
pub fn toggle_menu_on_start(pads: &[Gamepad], active: &GamepadActive, state: AppState) -> (next:
    Option<AppState>)
    ensures
        next == (if active.0 && start_pressed(pads@) {
            menu_toggled(state)
        } else {
            None
        }),
{
    if !active.0 {
        return None;
    }
    let mut i: usize = 0;
    while i < pads.len()
        invariant
            i <= pads.len(),
            active.0,
            forall|k: int| 0 <= k < i ==> !(#[trigger] pads@[k]).just_pressed.start,
        decreases pads.len() - i,
    {
        if pads[i].just_pressed.start {
            assert(pads@[i as int].just_pressed.start);
            return match state {
                AppState::InGame => Some(AppState::InGameMenu),
                AppState::InGameMenu => Some(AppState::InGame),
                AppState::Initial => None,
            };
        }
        i = i + 1;
    }
    None
}

/// The deflection of a stick behind the dead zone.
pub open spec fn stick_of(x: Option<i32>, y: Option<i32>) -> (int, int) {
    behind_deadzone(reading(x), reading(y))
}

fn read_stick(x: Option<i32>, y: Option<i32>) -> (r: (i64, i64))
    ensures
        (r.0 as int, r.1 as int) == stick_of(x, y),
        -0x1_0000_0000 <= r.0 <= 0x1_0000_0000,
        -0x1_0000_0000 <= r.1 <= 0x1_0000_0000,
{
    deadzone(read(x), read(y))
}

/// Where the first `n` pads move: strafe, jump, forward, added up.
pub open spec fn moved(pads: Seq<Gamepad>, n: int) -> (int, int, int)
    decreases n,
{
    if n <= 0 {
        (0, 0, 0)
    } else {
        let (x, y, z) = moved(pads, n - 1);
        let pad = pads[n - 1];
        (
            x + stick_of(pad.left_x, pad.left_y).0,
            y + if pad.just_pressed.south {
                1_000_000int
            } else {
                0
            },
            z + stick_of(pad.left_x, pad.left_y).1,
        )
    }
}

/// Where the pads move the player: no faster than at full deflection, and not at all
/// outside the game.
pub fn gamepad_movement(pads: &[Gamepad], state: AppState) -> (dir: Point)
    requires
        pads@.len() <= 0x100_0000,
    ensures
        dir == (if state == AppState::InGame {
            let (x, y, z) = moved(pads@, pads@.len() as int);
            Point { x: x as i64, y: y as i64, z: z as i64 }.clamped(1_000_000)
        } else {
            Point { x: 0, y: 0, z: 0 }
        }),
{
    let mut dir: Point = Point::zero();
    if state != AppState::InGame {
        return dir;
    }
    let mut i: usize = 0;
    while i < pads.len()
        invariant
            i <= pads.len() <= 0x100_0000,
            (dir.x as int, dir.y as int, dir.z as int) == moved(pads@, i as int),
            -i * 0x1_0000_0000 <= dir.x <= i * 0x1_0000_0000,
            0 <= dir.y <= i * 0x1_0000_0000,
            -i * 0x1_0000_0000 <= dir.z <= i * 0x1_0000_0000,
        decreases pads.len() - i,
    {
        let (strafe, ahead) = read_stick(pads[i].left_x, pads[i].left_y);
        dir.x = dir.x + strafe;
        dir.z = dir.z + ahead;
        if pads[i].just_pressed.south {
            dir.y = dir.y + 1_000_000;
        }
        i = i + 1;
    }
    dir.clamp_length(1_000_000)
}

/// What the pads ask for besides moving.
#[derive(Clone, Copy, Debug, PartialEq, Eq, Structural)]
pub struct Pointer {
    /// Look to add, in millionths; up is negative.
    pub look_x: i64,
    pub look_y: i64,
    pub modify: bool,
    pub click: bool,
}

/// What the first `n` pads ask for.
pub open spec fn pointer_upto(pads: Seq<Gamepad>, n: int) -> (int, int, bool, bool)
    decreases n,
{
    if n <= 0 {
        (0, 0, false, false)
    } else {
        let (x, y, modify, click) = pointer_upto(pads, n - 1);
        let pad = pads[n - 1];
        (
            x + stick_of(pad.right_x, pad.right_y).0 * LOOK_SPEED,
            y - stick_of(pad.right_x, pad.right_y).1 * LOOK_SPEED,
            modify || pad.pressed.left_trigger || pad.pressed.left_trigger2,
            click || pad.just_pressed.right_trigger || pad.just_pressed.right_trigger2,
        )
    }
}

/// What the pads ask for besides moving: it adds to what mouse and keyboard ask for.
pub fn gamepad_pointer(pads: &[Gamepad]) -> (p: Pointer)
    requires
        pads@.len() <= 0x100_0000,
    ensures
        (p.look_x as int, p.look_y as int, p.modify, p.click) == pointer_upto(
            pads@,
            pads@.len() as int,
        ),
{
    let mut p: Pointer = Pointer { look_x: 0, look_y: 0, modify: false, click: false };
    let mut i: usize = 0;
    while i < pads.len()
        invariant
            i <= pads.len() <= 0x100_0000,
            (p.look_x as int, p.look_y as int, p.modify, p.click) == pointer_upto(pads@, i as int),
            -i * 0x10_0000_0000 <= p.look_x <= i * 0x10_0000_0000,
            -i * 0x10_0000_0000 <= p.look_y <= i * 0x10_0000_0000,
        decreases pads.len() - i,
    {
        let (rx, ry) = read_stick(pads[i].right_x, pads[i].right_y);
        p.look_x = p.look_x + rx * LOOK_SPEED;
        p.look_y = p.look_y - ry * LOOK_SPEED;
        if pads[i].pressed.left_trigger || pads[i].pressed.left_trigger2 {
            p.modify = true;
        }
        if pads[i].just_pressed.right_trigger || pads[i].just_pressed.right_trigger2 {
            p.click = true;
        }
        i = i + 1;
    }
    p
}

/// The dead zone is round: a stick reads nothing within it whichever way it is pushed, and
/// outside it neither axis is lost alone. Pushed the other way a stick reads the opposite,
/// and along an axis a further push reads no less and a full deflection stays a full one.
pub proof fn law_deadzone_is_round(x: int, y: int, v: int, w: int)
    requires
        0 <= v <= w,
    ensures
        x * x + y * y <= STICK_DEADZONE * STICK_DEADZONE ==> behind_deadzone(x, y) == (0int, 0int),
        behind_deadzone(-x, -y) == (-behind_deadzone(x, y).0, -behind_deadzone(x, y).1),
        behind_deadzone(y, x) == (behind_deadzone(x, y).1, behind_deadzone(x, y).0),
        behind_deadzone(v, 0).0 <= behind_deadzone(w, 0).0,
        behind_deadzone(1_000_000, 0) == (1_000_000int, 0int),
{
    lemma_floor_sqrt_exists((x * x + y * y) as nat);
    assert(x * x + y * y >= 0) by (nonlinear_arith);
    assert((-x) * (-x) + (-y) * (-y) == x * x + y * y) by (nonlinear_arith);
    let push = push_of(x, y);
    if push > 120_000 {
        let (num, den) = ((push - 120_000) * 1_000_000, push * 880_000);
        assert((0 * num) / den == 0) by (nonlinear_arith)
            requires
                den > 0,
        ;
    }
    if x * x + y * y <= 120_000 * 120_000 {
        assert(push <= 120_000) by (nonlinear_arith)
            requires
                push * push <= 120_000 * 120_000,
                push >= 0,
        ;
    }
    lemma_axis_push(v);
    lemma_axis_push(w);
    lemma_axis_push(1_000_000);
    if v > 120_000 {
        lemma_axis_stretch(v);
        lemma_axis_stretch(w);
    }
    if w > 120_000 {
        lemma_axis_stretch(w);
    }
    lemma_axis_stretch(1_000_000);
}

proof fn lemma_axis_push(v: int)
    requires
        0 <= v,
    ensures
        push_of(v, 0) == v,
{
    assert(v * v + 0 * 0 == v * v);
    assert(v * v < (v + 1) * (v + 1)) by (nonlinear_arith)
        requires
            0 <= v,
    ;
    lemma_floor_sqrt_unique(v as nat, (v * v) as nat);
}

/// A push along an axis is stretched as a number.
proof fn lemma_axis_stretch(v: int)
    requires
        v > STICK_DEADZONE,
    ensures
        behind_deadzone(v, 0) == ((v - STICK_DEADZONE) * 1_000_000 / 880_000, 0int),
{
    lemma_axis_push(v);
    let k = (v - 120_000) * 1_000_000;
    assert((v * k) / (v * 880_000) == k / 880_000) by {
        vstd::arithmetic::div_mod::lemma_div_denominator(v * k, v, 880_000);
        assert((v * k) / v == k) by (nonlinear_arith)
            requires
                v > 0,
        ;
    }
    assert((0 * k) / (v * 880_000) == 0) by (nonlinear_arith)
        requires
            v > 0,
    ;
}

/// Opening and closing the menu are each other's undoing.
pub proof fn law_menu_toggle_undoes_itself(state: AppState)
    requires
        state != AppState::Initial,
    ensures
        menu_toggled(state) is Some,
        menu_toggled(menu_toggled(state)->0) == Some(state),
{
}

/// Every one of the eight buttons counts as using the pad, and nothing else on it does.
pub proof fn law_any_button_uses_the_pad(b: Buttons)
    ensures
        b.south ==> activates(b),
        b.east ==> activates(b),
        b.west ==> activates(b),
        b.north ==> activates(b),
        b.start ==> activates(b),
        b.select ==> activates(b),
        b.left_trigger ==> activates(b),
        b.right_trigger ==> activates(b),
        activates(b) ==> b.south || b.east || b.west || b.north || b.start || b.select
            || b.left_trigger || b.right_trigger,
{
}

/// A pad is in use once a button is pressed, or once its left stick is clear of the dead
/// zone; resting on the table with its stick within it, it is not.
pub proof fn law_a_pushed_stick_uses_the_pad(pad: Gamepad, x: i32, y: i32)
    requires
        pad.left_x == Some(x),
        pad.left_y == Some(y),
    ensures
        x * x + y * y >= 120_001 * 120_001 ==> in_use(pad),
        pad.just_pressed.south || pad.just_pressed.start ==> in_use(pad),
        x * x + y * y < 120_001 * 120_001 && !activates(pad.just_pressed) ==> !in_use(pad),
{
    let n = (x * x + y * y) as nat;
    assert(x * x >= 0 && y * y >= 0) by (nonlinear_arith);
    lemma_floor_sqrt_exists(n);
    let r = floor_sqrt(n) as int;
    if x * x + y * y >= 120_001 * 120_001 && r <= 120_000 {
        assert((r + 1) * (r + 1) <= 120_001 * 120_001) by (nonlinear_arith)
            requires
                0 <= r <= 120_000,
        ;
    }
    if x * x + y * y < 120_001 * 120_001 && r > 120_000 {
        assert(r * r >= 120_001 * 120_001) by (nonlinear_arith)
            requires
                r >= 120_001,
        ;
    }
}

/// The left stick strafes with its own x and goes forward with its own y, and the south
/// button jumps: one more pad adds its own share to each of the three.
pub proof fn law_the_left_stick_moves(pads: Seq<Gamepad>, n: int, x: i32, y: i32)
    requires
        0 <= n < pads.len(),
        pads[n].left_x == Some(x),
        pads[n].left_y == Some(y),
    ensures
        moved(pads, 0) == (0int, 0int, 0int),
        moved(pads, n + 1).0 - moved(pads, n).0 == behind_deadzone(x as int, y as int).0,
        moved(pads, n + 1).2 - moved(pads, n).2 == behind_deadzone(x as int, y as int).1,
        pads[n].just_pressed.south ==> moved(pads, n + 1).1 - moved(pads, n).1 == 1_000_000,
        !pads[n].just_pressed.south ==> moved(pads, n + 1).1 == moved(pads, n).1,
{
}

/// The right stick looks: pushed to the right the view goes right, pushed up it goes up,
/// which is negative. Either trigger of a side does that side's work, on any pad.
pub proof fn law_the_right_stick_looks(pads: Seq<Gamepad>, n: int, x: i32, y: i32)
    requires
        0 <= n < pads.len(),
        pads[n].right_x == Some(x),
        pads[n].right_y == Some(y),
    ensures
        pointer_upto(pads, 0) == (0int, 0int, false, false),
        pointer_upto(pads, n + 1).0 - pointer_upto(pads, n).0 == 9 * behind_deadzone(
            x as int,
            y as int,
        ).0,
        pointer_upto(pads, n + 1).1 - pointer_upto(pads, n).1 == -9 * behind_deadzone(
            x as int,
            y as int,
        ).1,
        pointer_upto(pads, n).2 || pads[n].pressed.left_trigger || pads[n].pressed.left_trigger2
            ==> pointer_upto(pads, n + 1).2,
        pointer_upto(pads, n + 1).2 ==> pointer_upto(pads, n).2 || pads[n].pressed.left_trigger
            || pads[n].pressed.left_trigger2,
        pointer_upto(pads, n).3 || pads[n].just_pressed.right_trigger
            || pads[n].just_pressed.right_trigger2 ==> pointer_upto(pads, n + 1).3,
        pointer_upto(pads, n + 1).3 ==> pointer_upto(pads, n).3
            || pads[n].just_pressed.right_trigger || pads[n].just_pressed.right_trigger2,
{
}

/// Past the dead zone a stick keeps the way it is pushed: no axis changes its sign, and the
/// further axis stays the further one. Along an axis what is left is stretched evenly.
pub proof fn law_the_stick_keeps_its_way(x: int, y: int, v: int)
    requires
        120_000 < v <= 1_000_000,
    ensures
        x >= 0 ==> behind_deadzone(x, y).0 >= 0,
        x <= 0 ==> behind_deadzone(x, y).0 <= 0,
        y >= 0 ==> behind_deadzone(x, y).1 >= 0,
        y <= 0 ==> behind_deadzone(x, y).1 <= 0,
        0 <= y <= x ==> behind_deadzone(x, y).1 <= behind_deadzone(x, y).0,
        880_000 * behind_deadzone(v, 0).0 <= 1_000_000 * (v - 120_000) < 880_000
            * behind_deadzone(v, 0).0 + 880_000,
{
    let push = push_of(x, y);
    if push > STICK_DEADZONE {
        let (num, den) = ((push - STICK_DEADZONE) * 1_000_000, push * 880_000);
        lemma_scaled_sign(x, num, den);
        lemma_scaled_sign(y, num, den);
        if 0 <= y <= x {
            assert(y * num <= x * num) by (nonlinear_arith)
                requires
                    y <= x,
                    num > 0,
            ;
            vstd::arithmetic::div_mod::lemma_div_is_ordered(y * num, x * num, den);
        }
    }
    assert(v * v + 0int * 0 == v * v);
    lemma_floor_sqrt_exists((v * v) as nat);
    assert(push_of(v, 0) == v) by {
        assert(v * v >= 0) by (nonlinear_arith);
        let r = floor_sqrt((v * v) as nat) as int;
        assert(r == v) by (nonlinear_arith)
            requires
                r * r <= v * v < (r + 1) * (r + 1),
                r >= 0,
                v > 0,
        ;
    }
    let (num, den) = ((v - STICK_DEADZONE) * 1_000_000, v * 880_000);
    let k = behind_deadzone(v, 0).0;
    assert(k == (v * num) / den);
    vstd::arithmetic::div_mod::lemma_fundamental_div_mod(v * num, den);
    vstd::arithmetic::div_mod::lemma_mod_bound(v * num, den);
    assert(den * k <= v * num < den * k + den);
    assert(den * k == v * (880_000 * k)) by (nonlinear_arith)
        requires
            den == v * 880_000,
    ;
    assert(den == v * 880_000);
    assert(880_000 * k <= num < 880_000 * k + 880_000) by (nonlinear_arith)
        requires
            v > 0,
            v * (880_000 * k) <= v * num < v * (880_000 * k) + v * 880_000,
    ;
}

proof fn lemma_scaled_sign(v: int, num: int, den: int)
    requires
        num > 0,
        den > 0,
    ensures
        v >= 0 ==> scaled(v, num, den) >= 0,
        v <= 0 ==> scaled(v, num, den) <= 0,
{
    let w = if v >= 0 {
        v
    } else {
        -v
    };
    assert(w * num >= 0) by (nonlinear_arith)
        requires
            w >= 0,
            num > 0,
    ;
    vstd::arithmetic::div_mod::lemma_div_pos_is_pos(w * num, den);
}

} // verus!
