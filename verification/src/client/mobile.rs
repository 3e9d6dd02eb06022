//! Touch controls. A finger that lands on a button is that button's; otherwise the left
//! half of the screen is the movement joystick and the right half looks. Positions are
//! thousandths of a logical pixel from the top-left corner.

use crate::client::input::{add_direction, is_direction, plus};
use crate::client::AppState;
use crate::geom::{law_clamped_is_short, Point};
use vstd::prelude::*;

verus! {

/// No window is wider or higher than this.
pub const SCREEN_LIMIT: i64 = 0x100_0000_0000;

/// Joystick deflections below this are jitter.
pub const JOYSTICK_DEADZONE: i64 = 150_000;

/// How far outside the drawn circle a finger still hits a button.
pub const HIT_SLACK: i64 = 8_000;

/// A position on the screen.
#[derive(Clone, Copy, Debug, PartialEq, Eq, Structural)]
pub struct Spot {
    pub x: i64,
    pub y: i64,
}

impl Spot {
    /// Whether the position can be on a screen.
    pub open spec fn on_screen(self) -> bool {
        &&& -SCREEN_LIMIT <= self.x <= SCREEN_LIMIT
        &&& -SCREEN_LIMIT <= self.y <= SCREEN_LIMIT
    }

    /// The position in the plane.
    pub open spec fn flat(self) -> Point {
        Point { x: self.x, y: self.y, z: 0 }
    }
}

/// A finger on the screen.
#[derive(Clone, Copy, Debug, PartialEq, Eq, Structural)]
pub struct Touch {
    pub id: u64,
    pub position: Spot,
}

/// Whether touch was used.
#[derive(Clone, Copy, Debug, PartialEq, Eq, Structural)]
pub struct MobileActive(pub bool);

impl Default for MobileActive {
    fn default() -> (active: Self)
        ensures
            !active.0,
    {
        MobileActive(false)
    }
}

/// Whether the touch controls are on.
pub fn mobile_active(active: &MobileActive) -> (on: bool)
    ensures
        on == active.0,
{
    active.0
}

/// The first tap turns the touch controls on.
pub fn detect_touch(just_pressed: usize, active: &mut MobileActive)
    ensures
        final(active).0 == (old(active).0 || just_pressed > 0),
{
    if !active.0 && just_pressed > 0 {
        active.0 = true;
    }
}

/// The first tap starts the game.
pub fn start_game_on_touch(just_pressed: usize) -> (next: Option<AppState>)
    ensures
        next == (if just_pressed > 0 {
            Some(AppState::InGame)
        } else {
            None
        }),
{
    if just_pressed > 0 {
        Some(AppState::InGame)
    } else {
        None
    }
}

/// Which finger has which role, and where the joystick stands.
#[derive(Clone, Copy, Debug, PartialEq, Eq, Structural)]
pub struct TouchControls {
    /// The finger on the joystick, where it came down, and where the knob is drawn.
    pub move_touch: Option<u64>,
    pub move_origin: Spot,
    pub move_knob: Spot,
    /// Where the joystick points, in millionths: `x` strafes, `z` goes forward.
    pub move_dir: Point,
    /// The finger that looks.
    pub look_touch: Option<u64>,
    /// The finger on the jump button.
    pub jump_touch: Option<u64>,
    /// The latched modifier.
    pub modify_on: bool,
}

impl Default for TouchControls {
    fn default() -> (controls: Self)
        ensures
            controls == (TouchControls {
                move_touch: None,
                move_origin: Spot { x: 0, y: 0 },
                move_knob: Spot { x: 0, y: 0 },
                move_dir: Point { x: 0, y: 0, z: 0 },
                look_touch: None,
                jump_touch: None,
                modify_on: false,
            }),
    {
        TouchControls {
            move_touch: None,
            move_origin: Spot { x: 0, y: 0 },
            move_knob: Spot { x: 0, y: 0 },
            move_dir: Point::zero(),
            look_touch: None,
            jump_touch: None,
            modify_on: false,
        }
    }
}

impl TouchControls {
    /// The controls with no finger on them.
    pub open spec fn cleared(self) -> TouchControls {
        TouchControls {
            move_touch: None,
            move_dir: Point { x: 0, y: 0, z: 0 },
            look_touch: None,
            jump_touch: None,
            ..self
        }
    }

    /// Takes every finger off. The latched modifier stays.
    pub fn clear_fingers(&mut self)
        ensures
            *final(self) == old(self).cleared(),
    {
        self.move_touch = None;
        self.move_dir = Point::zero();
        self.look_touch = None;
        self.jump_touch = None;
    }
}

/// Leaving the game takes every finger off.
pub fn reset_controls(controls: &mut TouchControls)
    ensures
        *final(controls) == old(controls).cleared(),
{
    controls.clear_fingers();
}

/// Where the buttons are, and how large they are.
#[derive(Clone, Copy, Debug, PartialEq, Eq, Structural)]
pub struct ControlLayout {
    pub width: i64,
    pub height: i64,
    pub btn_r: i64,
    pub pause_r: i64,
    pub joystick_radius: i64,
    pub jump: Spot,
    pub grab: Spot,
    pub modify: Spot,
    pub pause: Spot,
}

/// `share` hundredths of `v`, within bounds.
pub open spec fn sized(v: i64, share: int, min: int, max: int) -> int {
    let s = v * share / 100;
    if s < min {
        min
    } else if s > max {
        max
    } else {
        s
    }
}

/// The layout of a window: the action buttons in the bottom-right corner within reach of
/// the thumb, the pause button in the top-right one.
pub open spec fn layout_of(w: i64, h: i64) -> ControlLayout {
    let small = if w <= h {
        w
    } else {
        h
    };
    let r = sized(small, 7, 28_000, 56_000);
    let gap = 2 * r + 18_000;
    let pause_r = r * 7 / 10;
    let margin = r + 16_000;
    ControlLayout {
        width: w,
        height: h,
        btn_r: r as i64,
        pause_r: pause_r as i64,
        joystick_radius: sized(small, 18, 60_000, 140_000) as i64,
        jump: Spot { x: (w - margin) as i64, y: (h - margin) as i64 },
        grab: Spot { x: (w - margin - gap) as i64, y: (h - margin) as i64 },
        modify: Spot { x: (w - margin) as i64, y: (h - margin - gap) as i64 },
        pause: Spot { x: (w - pause_r - 12_000) as i64, y: (pause_r + 12_000) as i64 },
    }
}

fn size(v: i64, share: i64, min: i64, max: i64) -> (s: i64)
    requires
        0 <= v <= SCREEN_LIMIT,
        0 <= share <= 100,
        0 <= min <= max,
    ensures
        s == sized(v, share as int, min as int, max as int),
        min <= s <= max,
{
    assert(0 <= v * share <= 0x100_0000_0000 * 100) by (nonlinear_arith)
        requires
            0 <= v <= 0x100_0000_0000,
            0 <= share <= 100,
    ;
    let s: i64 = v * share / 100;
    if s < min {
        min
    } else if s > max {
        max
    } else {
        s
    }
}

impl ControlLayout {
    /// A layout that a window can have.
    pub open spec fn wf(self) -> bool {
        &&& 28_000 <= self.btn_r <= 56_000
        &&& 60_000 <= self.joystick_radius <= 140_000
        &&& 0 <= self.width <= SCREEN_LIMIT
        &&& self.jump.on_screen()
        &&& self.grab.on_screen()
        &&& self.modify.on_screen()
        &&& self.pause.on_screen()
    }

    /// Whether a finger at `p` hits the button at `center`.
    pub open spec fn hits(self, center: Spot, p: Spot) -> bool {
        p.flat().dist2(center.flat()) <= (self.btn_r + HIT_SLACK) * (self.btn_r + HIT_SLACK)
    }

    /// Lays the buttons out for a window of this size.
    pub fn recompute(&mut self, w: i64, h: i64)
        requires
            0 <= w <= SCREEN_LIMIT - 1_000_000,
            0 <= h <= SCREEN_LIMIT - 1_000_000,
        ensures
            *final(self) == layout_of(w, h),
            final(self).wf(),
    {
        let small: i64 = if w <= h { w } else { h };
        let r: i64 = size(small, 7, 28_000, 56_000);
        let gap: i64 = 2 * r + 18_000;
        self.width = w;
        self.height = h;
        self.btn_r = r;
        self.pause_r = r * 7 / 10;
        self.joystick_radius = size(small, 18, 60_000, 140_000);
        let margin: i64 = r + 16_000;
        self.jump = Spot { x: w - margin, y: h - margin };
        self.grab = Spot { x: self.jump.x - gap, y: self.jump.y };
        self.modify = Spot { x: self.jump.x, y: self.jump.y - gap };
        self.pause = Spot { x: w - self.pause_r - 12_000, y: self.pause_r + 12_000 };
    }

    /// Whether a finger at `p` hits the button at `center`: the target is a little larger
    /// than the drawn circle.
    pub fn hit(&self, center: Spot, p: Spot) -> (yes: bool)
        requires
            self.wf(),
            center.on_screen(),
            p.on_screen(),
        ensures
            yes == self.hits(center, p),
    {
        let a: Point = Point { x: p.x, y: p.y, z: 0 };
        let b: Point = Point { x: center.x, y: center.y, z: 0 };
        let reach: i64 = self.btn_r + HIT_SLACK;
        assert(0 <= reach * reach <= 64_000 * 64_000) by (nonlinear_arith)
            requires
                0 <= reach <= 64_000,
        ;
        a.distance_squared(&b) <= (reach * reach) as u128
    }
}

/// Lays the buttons out for the window, if there is one.
pub fn compute_layout(layout: &mut ControlLayout, window: Option<(i64, i64)>)
    requires
        window matches Some((w, h)) ==> 0 <= w <= SCREEN_LIMIT - 1_000_000 && 0 <= h
            <= SCREEN_LIMIT - 1_000_000,
    ensures
        *final(layout) == match window {
            Some((w, h)) => layout_of(w, h),
            None => *old(layout),
        },
{
    if let Some((w, h)) = window {
        layout.recompute(w, h);
    }
}

/// What is written on a button.
#[derive(Clone, Copy, Debug, PartialEq, Eq, Structural)]
pub enum ButtonLabel {
    Jump,
    Grab,
    Rotate,
    Pause,
}

impl ButtonLabel {
    pub open spec fn written(self) -> Seq<char> {
        match self {
            ButtonLabel::Jump => "JMP"@,
            ButtonLabel::Grab => "GRAB"@,
            ButtonLabel::Rotate => "ROT"@,
            ButtonLabel::Pause => "II"@,
        }
    }

    pub fn text(&self) -> (t: &'static str)
        ensures
            t@ == self.written(),
    {
        match self {
            ButtonLabel::Jump => "JMP",
            ButtonLabel::Grab => "GRAB",
            ButtonLabel::Rotate => "ROT",
            ButtonLabel::Pause => "II",
        }
    }
}

/// A button as it is drawn: blue while it is pressed or latched, dark otherwise.
#[derive(Clone, Copy, Debug, PartialEq, Eq, Structural)]
pub struct DrawnButton {
    pub center: Spot,
    pub radius: i64,
    pub label: ButtonLabel,
    pub font_size: i64,
    pub active: bool,
}

pub open spec fn drawn_button(center: Spot, radius: i64, label: ButtonLabel, active: bool) -> DrawnButton {
    DrawnButton { center, radius, label, font_size: (radius * 62 / 100) as i64, active }
}

fn draw_button(center: Spot, radius: i64, label: ButtonLabel, active: bool) -> (b: DrawnButton)
    requires
        0 <= radius <= 0x1000_0000,
    ensures
        b == drawn_button(center, radius, label, active),
{
    DrawnButton { center, radius, label, font_size: radius * 62 / 100, active }
}

/// The joystick as it is drawn.
#[derive(Clone, Copy, Debug, PartialEq, Eq, Structural)]
pub struct DrawnJoystick {
    pub base: Spot,
    pub base_radius: i64,
    pub knob: Spot,
    pub knob_radius: i64,
}

/// What is drawn over the game: the joystick while a finger is on it, and the buttons.
#[derive(Clone, Copy, Debug, PartialEq, Eq, Structural)]
pub struct Overlay {
    pub joystick: Option<DrawnJoystick>,
    pub jump: DrawnButton,
    pub grab: DrawnButton,
    pub modify: DrawnButton,
    pub pause: DrawnButton,
}

/// What is drawn over the game.
pub fn draw_overlay(layout: &ControlLayout, controls: &TouchControls) -> (o: Overlay)
    requires
        0 <= layout.btn_r <= 0x1000_0000,
        0 <= layout.pause_r <= 0x1000_0000,
        0 <= layout.joystick_radius <= 0x1000_0000,
    ensures
        o == (Overlay {
            joystick: if controls.move_touch is Some {
                Some(
                    DrawnJoystick {
                        base: controls.move_origin,
                        base_radius: layout.joystick_radius,
                        knob: controls.move_knob,
                        knob_radius: (layout.joystick_radius * 36 / 100) as i64,
                    },
                )
            } else {
                None
            },
            jump: drawn_button(
                layout.jump,
                layout.btn_r,
                ButtonLabel::Jump,
                controls.jump_touch is Some,
            ),
            grab: drawn_button(layout.grab, layout.btn_r, ButtonLabel::Grab, false),
            modify: drawn_button(
                layout.modify,
                layout.btn_r,
                ButtonLabel::Rotate,
                controls.modify_on,
            ),
            pause: drawn_button(layout.pause, layout.pause_r, ButtonLabel::Pause, false),
        }),
{
    let joystick: Option<DrawnJoystick> = if controls.move_touch.is_some() {
        Some(
            DrawnJoystick {
                base: controls.move_origin,
                base_radius: layout.joystick_radius,
                knob: controls.move_knob,
                knob_radius: layout.joystick_radius * 36 / 100,
            },
        )
    } else {
        None
    };
    Overlay {
        joystick,
        jump: draw_button(layout.jump, layout.btn_r, ButtonLabel::Jump, controls.jump_touch.is_some()),
        grab: draw_button(layout.grab, layout.btn_r, ButtonLabel::Grab, false),
        modify: draw_button(layout.modify, layout.btn_r, ButtonLabel::Rotate, controls.modify_on),
        pause: draw_button(layout.pause, layout.pause_r, ButtonLabel::Pause, false),
    }
}

/// What a frame of touches has come to.
#[derive(Clone, Copy, Debug, PartialEq, Eq, Structural)]
pub struct Classified {
    pub controls: TouchControls,
    /// Presses of the grab button.
    pub clicks: usize,
    /// Whether the pause button was pressed.
    pub pause: bool,
}

/// Whether finger `id` is down.
pub open spec fn is_down(touches: Seq<Touch>, id: Option<u64>) -> bool {
    id is Some && exists|i: int| 0 <= i < touches.len() && (#[trigger] touches[i]).id == id->0
}

/// The controls without the roles whose finger has lifted.
pub open spec fn released(touches: Seq<Touch>, c: TouchControls) -> TouchControls {
    TouchControls {
        move_touch: if is_down(touches, c.move_touch) {
            c.move_touch
        } else {
            None
        },
        move_dir: if is_down(touches, c.move_touch) {
            c.move_dir
        } else {
            Point { x: 0, y: 0, z: 0 }
        },
        look_touch: if is_down(touches, c.look_touch) {
            c.look_touch
        } else {
            None
        },
        jump_touch: if is_down(touches, c.jump_touch) {
            c.jump_touch
        } else {
            None
        },
        ..c
    }
}

/// What one more finger does. Buttons come first, so a finger on a button never moves or
/// looks; the other roles have one finger each.
pub open spec fn assigned(layout: ControlLayout, s: Classified, touch: Touch) -> Classified {
    let p = touch.position;
    let c = s.controls;
    if layout.hits(layout.pause, p) {
        Classified { controls: c.cleared(), pause: true, ..s }
    } else if layout.hits(layout.jump, p) {
        Classified { controls: TouchControls { jump_touch: Some(touch.id), ..c }, ..s }
    } else if layout.hits(layout.grab, p) {
        Classified { clicks: (s.clicks + 1) as usize, ..s }
    } else if layout.hits(layout.modify, p) {
        Classified { controls: TouchControls { modify_on: !c.modify_on, ..c }, ..s }
    } else if 2 * p.x < layout.width {
        if c.move_touch is None {
            Classified {
                controls: TouchControls {
                    move_touch: Some(touch.id),
                    move_origin: p,
                    move_knob: p,
                    move_dir: Point { x: 0, y: 0, z: 0 },
                    ..c
                },
                ..s
            }
        } else {
            s
        }
    } else if c.look_touch is None {
        Classified { controls: TouchControls { look_touch: Some(touch.id), ..c }, ..s }
    } else {
        s
    }
}

/// What the first `n` new fingers do.
pub open spec fn assigned_upto(
    layout: ControlLayout,
    s: Classified,
    pressed: Seq<Touch>,
    n: int,
) -> Classified
    decreases n,
{
    if n <= 0 {
        s
    } else {
        assigned(layout, assigned_upto(layout, s, pressed, n - 1), pressed[n - 1])
    }
}

/// How far the joystick is pushed, no further than its rim.
pub open spec fn push(layout: ControlLayout, origin: Spot, at: Spot) -> Point {
    Point { x: (at.x - origin.x) as i64, y: (at.y - origin.y) as i64, z: 0 }.clamped(
        layout.joystick_radius as int,
    )
}

/// `v` as a share of the joystick's radius, in millionths.
pub open spec fn share(v: i64, radius: i64) -> int {
    crate::geom::scaled(v as int, 1_000_000, radius as int)
}

/// Where a push points: up the screen is forward. Small pushes point nowhere.
pub open spec fn push_dir(layout: ControlLayout, pushed: Point) -> Point {
    let v = Point {
        x: share(pushed.x, layout.joystick_radius) as i64,
        y: 0,
        z: (-share(pushed.y, layout.joystick_radius)) as i64,
    };
    if v.len2() < JOYSTICK_DEADZONE * JOYSTICK_DEADZONE {
        Point { x: 0, y: 0, z: 0 }
    } else {
        v
    }
}

/// The controls with the joystick where the finger at `at` has pushed it.
pub open spec fn steered(layout: ControlLayout, c: TouchControls, at: Spot) -> TouchControls {
    let pushed = push(layout, c.move_origin, at);
    TouchControls {
        move_knob: Spot {
            x: (c.move_origin.x + pushed.x) as i64,
            y: (c.move_origin.y + pushed.y) as i64,
        },
        move_dir: push_dir(layout, pushed),
        ..c
    }
}

/// Where finger `id` is, by the first touch that has it.
pub open spec fn finger_at(touches: Seq<Touch>, id: u64) -> Option<Spot>
    decreases touches.len(),
{
    if touches.len() == 0 {
        None
    } else if touches[0].id == id {
        Some(touches[0].position)
    } else {
        finger_at(touches.skip(1), id)
    }
}

/// What a frame of touches comes to.
pub open spec fn classified(
    touches: Seq<Touch>,
    pressed: Seq<Touch>,
    layout: ControlLayout,
    before: TouchControls,
) -> Classified {
    let start = Classified { controls: released(touches, before), clicks: 0, pause: false };
    let s = assigned_upto(layout, start, pressed, pressed.len() as int);
    match s.controls.move_touch {
        Some(id) => match finger_at(touches, id) {
            Some(at) => Classified { controls: steered(layout, s.controls, at), ..s },
            None => s,
        },
        None => s,
    }
}

fn down(touches: &[Touch], id: Option<u64>) -> (yes: bool)
    ensures
        yes == is_down(touches@, id),
{
    let finger: u64 = match id {
        Some(f) => f,
        None => {
            return false;
        },
    };
    let mut i: usize = 0;
    while i < touches.len()
        invariant
            i <= touches.len(),
            id == Some(finger),
            forall|k: int| 0 <= k < i ==> (#[trigger] touches@[k]).id != finger,
        decreases touches.len() - i,
    {
        if touches[i].id == finger {
            assert(touches@[i as int].id == finger);
            return true;
        }
        i = i + 1;
    }
    false
}

fn find_finger(touches: &[Touch], id: u64) -> (at: Option<Spot>)
    ensures
        at == finger_at(touches@, id),
        is_down(touches@, Some(id)) ==> at is Some,
        at matches Some(p) ==> exists|k: int| 0 <= k < touches@.len() && (#[trigger] touches@[k]).position == p,
{
    let mut i: usize = 0;
    assert(touches@.skip(0) =~= touches@);
    while i < touches.len()
        invariant
            i <= touches.len(),
            forall|k: int| 0 <= k < i ==> (#[trigger] touches@[k]).id != id,
            finger_at(touches@, id) == finger_at(touches@.skip(i as int), id),
        decreases touches.len() - i,
    {
        assert(touches@.skip(i as int)[0] == touches@[i as int]);
        assert(touches@.skip(i as int).skip(1) =~= touches@.skip(i + 1));
        if touches[i].id == id {
            assert(touches@[i as int].position == touches@[i as int].position);
            return Some(touches[i].position);
        }
        i = i + 1;
    }
    None
}

fn share_of(v: i64, radius: i64) -> (s: i64)
    requires
        -radius <= v <= radius,
        60_000 <= radius <= 140_000,
    ensures
        s == share(v, radius),
        -1_000_000 <= s <= 1_000_000,
{
    let magnitude: i64 = if v >= 0 { v } else { -v };
    assert(0 <= (magnitude * 1_000_000) / (radius as int) <= 1_000_000) by (nonlinear_arith)
        requires
            0 <= magnitude <= radius,
            60_000 <= radius,
    ;
    let q: i64 = magnitude * 1_000_000 / radius;
    if v >= 0 {
        q
    } else {
        -q
    }
}

fn steer(layout: &ControlLayout, c: &mut TouchControls, at: Spot)
    requires
        layout.wf(),
        at.on_screen(),
        old(c).move_origin.on_screen(),
    ensures
        *final(c) == steered(*layout, *old(c), at),
        final(c).move_dir.within(1_000_000),
{
    let offset: Point = Point { x: at.x - c.move_origin.x, y: at.y - c.move_origin.y, z: 0 };
    let pushed: Point = offset.clamp_length(layout.joystick_radius as u64);
    proof {
        law_clamped_is_short(offset, layout.joystick_radius as u64);
        lemma_short_axes(pushed, layout.joystick_radius as int);
    }
    c.move_knob = Spot { x: c.move_origin.x + pushed.x, y: c.move_origin.y + pushed.y };
    let v: Point = Point {
        x: share_of(pushed.x, layout.joystick_radius),
        y: 0,
        z: -share_of(pushed.y, layout.joystick_radius),
    };
    assert(JOYSTICK_DEADZONE * JOYSTICK_DEADZONE == 22_500_000_000) by (nonlinear_arith);
    c.move_dir = if v.length_squared() < 22_500_000_000 { Point::zero() } else { v };
}

proof fn lemma_short_axes(p: Point, max: int)
    requires
        p.len2() <= max * max,
        0 <= max,
    ensures
        -max <= p.x <= max,
        -max <= p.y <= max,
{
    assert(p.x * p.x >= 0) by (nonlinear_arith);
    assert(p.y * p.y >= 0) by (nonlinear_arith);
    assert(p.z * p.z >= 0) by (nonlinear_arith);
    assert(-max <= p.x <= max) by (nonlinear_arith)
        requires
            p.x * p.x <= max * max,
            0 <= max,
    ;
    assert(-max <= p.y <= max) by (nonlinear_arith)
        requires
            p.y * p.y <= max * max,
            0 <= max,
    ;
}

/// Takes in a frame of touches: releases roles whose finger has lifted, gives the new
/// fingers their roles, and steers the joystick. `touches` are all fingers that are down,
/// `pressed` those that came down in this frame.
pub fn classify_touches(
    touches: &[Touch],
    pressed: &[Touch],
    layout: &ControlLayout,
    controls: &mut TouchControls,
) -> (result: Classified)
    requires
        layout.wf(),
        old(controls).move_origin.on_screen(),
        forall|i: int| 0 <= i < touches@.len() ==> (#[trigger] touches@[i]).position.on_screen(),
        forall|i: int| 0 <= i < pressed@.len() ==> (#[trigger] pressed@[i]).position.on_screen(),
    ensures
        result == classified(touches@, pressed@, *layout, *old(controls)),
        *final(controls) == result.controls,
        final(controls).move_origin.on_screen(),
        final(controls).move_dir.within(1_000_000),
{
    let mut c: TouchControls = *controls;
    if !down(touches, c.move_touch) {
        c.move_touch = None;
        c.move_dir = Point::zero();
    }
    if !down(touches, c.look_touch) {
        c.look_touch = None;
    }
    if !down(touches, c.jump_touch) {
        c.jump_touch = None;
    }
    let ghost start = Classified { controls: c, clicks: 0, pause: false };
    assert(c == released(touches@, *old(controls)));
    let mut s: Classified = Classified { controls: c, clicks: 0, pause: false };
    let mut i: usize = 0;
    while i < pressed.len()
        invariant
            i <= pressed.len(),
            layout.wf(),
            forall|k: int| 0 <= k < pressed@.len() ==> (#[trigger] pressed@[k]).position.on_screen(),
            s == assigned_upto(*layout, start, pressed@, i as int),
            s.clicks <= i,
            s.controls.move_origin.on_screen(),
            s.controls.move_dir.within(1_000_000) || is_down(touches@, s.controls.move_touch),
        decreases pressed.len() - i,
    {
        let touch: Touch = pressed[i];
        let p: Spot = touch.position;
        assert(pressed@[i as int].position.on_screen());
        if layout.hit(layout.pause, p) {
            s.pause = true;
            s.controls.clear_fingers();
        } else if layout.hit(layout.jump, p) {
            s.controls.jump_touch = Some(touch.id);
        } else if layout.hit(layout.grab, p) {
            s.clicks = s.clicks + 1;
        } else if layout.hit(layout.modify, p) {
            s.controls.modify_on = !s.controls.modify_on;
        } else if 2 * p.x < layout.width {
            if s.controls.move_touch.is_none() {
                s.controls.move_touch = Some(touch.id);
                s.controls.move_origin = p;
                s.controls.move_knob = p;
                s.controls.move_dir = Point::zero();
            }
        } else if s.controls.look_touch.is_none() {
            s.controls.look_touch = Some(touch.id);
        }
        i = i + 1;
    }
    if let Some(id) = s.controls.move_touch {
        if let Some(at) = find_finger(touches, id) {
            steer(layout, &mut s.controls, at);
        }
    }
    *controls = s.controls;
    s
}

/// Where the touch controls move the player: the joystick, and a jump while the button is
/// held.
pub open spec fn touch_direction(c: TouchControls) -> Point {
    Point {
        x: c.move_dir.x,
        y: (c.move_dir.y + if c.jump_touch is Some {
            1_000_000int
        } else {
            0
        }) as i64,
        z: c.move_dir.z,
    }
}

/// Adds the joystick and the jump button to the players' directions.
pub fn apply_movement(controls: &TouchControls, inputs: &mut Vec<Point>)
    requires
        controls.move_dir.within(1_000_000),
        forall|i: int| 0 <= i < old(inputs)@.len() ==> is_direction(#[trigger] old(inputs)@[i]),
    ensures
        final(inputs)@ == (if touch_direction(*controls) == (Point { x: 0, y: 0, z: 0 }) {
            old(inputs)@
        } else {
            old(inputs)@.map_values(|p: Point| plus(p, touch_direction(*controls)).unit())
        }),
{
    let mut dir: Point = controls.move_dir;
    if controls.jump_touch.is_some() {
        dir.y = dir.y + 1_000_000;
    }
    if dir.x == 0 && dir.y == 0 && dir.z == 0 {
        return;
    }
    add_direction(inputs, &dir);
}

/// The look of this frame: how far the looking finger has moved, if it has.
pub fn apply_look(controls: &TouchControls, moved: &[Touch]) -> (look: Option<Spot>)
    ensures
        look == (match controls.look_touch {
            Some(id) => match finger_at(moved@, id) {
                Some(delta) => if delta.x == 0 && delta.y == 0 {
                    None
                } else {
                    Some(delta)
                },
                None => None,
            },
            None => None,
        }),
{
    let id: u64 = match controls.look_touch {
        Some(f) => f,
        None => {
            return None;
        },
    };
    match find_finger(moved, id) {
        Some(delta) => if delta.x == 0 && delta.y == 0 {
            None
        } else {
            Some(delta)
        },
        None => None,
    }
}

/// The latched modifier holds every player's modifier.
pub fn apply_modify(controls: &TouchControls, modifying: &mut Vec<bool>)
    ensures
        final(modifying)@ == old(modifying)@.map_values(|m: bool| m || controls.modify_on),
{
    if controls.modify_on {
        let mut i: usize = 0;
        while i < modifying.len()
            invariant
                i <= modifying.len() == old(modifying).len(),
                controls.modify_on,
                forall|k: int| 0 <= k < i ==> #[trigger] modifying@[k],
            decreases modifying.len() - i,
        {
            modifying.set(i, true);
            i = i + 1;
        }
    }
    assert(modifying@ =~= old(modifying)@.map_values(|m: bool| m || controls.modify_on));
}

/// Whether the three roles are held by three fingers.
pub open spec fn roles_apart(c: TouchControls) -> bool {
    &&& c.move_touch is Some ==> c.move_touch != c.look_touch && c.move_touch != c.jump_touch
    &&& c.look_touch is Some ==> c.look_touch != c.jump_touch
}

/// Whether finger `id` has no role.
pub open spec fn roleless(c: TouchControls, id: u64) -> bool {
    c.move_touch != Some(id) && c.look_touch != Some(id) && c.jump_touch != Some(id)
}

/// One finger never has two roles, as long as each new finger is a new one.
pub proof fn law_one_finger_one_role(
    layout: ControlLayout,
    start: Classified,
    pressed: Seq<Touch>,
    n: int,
)
    requires
        0 <= n <= pressed.len(),
        roles_apart(start.controls),
        forall|i: int| 0 <= i < pressed.len() ==> roleless(start.controls, (#[trigger] pressed[i]).id),
        forall|i: int, j: int|
            0 <= i < j < pressed.len() ==> (#[trigger] pressed[i]).id != (#[trigger] pressed[j]).id,
    ensures
        roles_apart(assigned_upto(layout, start, pressed, n).controls),
        forall|i: int|
            n <= i < pressed.len() ==> roleless(
                assigned_upto(layout, start, pressed, n).controls,
                (#[trigger] pressed[i]).id,
            ),
    decreases n,
{
    if n > 0 {
        law_one_finger_one_role(layout, start, pressed, n - 1);
        let before = assigned_upto(layout, start, pressed, n - 1).controls;
        let after = assigned_upto(layout, start, pressed, n).controls;
        assert(roleless(before, pressed[n - 1].id));
        assert forall|i: int| n <= i < pressed.len() implies roleless(after, (#[trigger] pressed[i]).id) by {
            assert(pressed[n - 1].id != pressed[i].id);
            assert(roleless(before, pressed[i].id));
        }
    }
}

/// A finger that lands on a button takes neither the joystick nor the view.
pub proof fn law_buttons_come_first(layout: ControlLayout, s: Classified, touch: Touch)
    requires
        layout.hits(layout.pause, touch.position) || layout.hits(layout.jump, touch.position)
            || layout.hits(layout.grab, touch.position) || layout.hits(
            layout.modify,
            touch.position,
        ),
        roleless(s.controls, touch.id),
    ensures
        assigned(layout, s, touch).controls.move_touch != Some(touch.id),
        assigned(layout, s, touch).controls.look_touch != Some(touch.id),
{
}

/// Pausing lets go of everything but the latched modifier.
pub proof fn law_pause_lets_go(layout: ControlLayout, s: Classified, touch: Touch)
    requires
        layout.hits(layout.pause, touch.position),
    ensures
        assigned(layout, s, touch).pause,
        assigned(layout, s, touch).controls.move_touch is None,
        assigned(layout, s, touch).controls.look_touch is None,
        assigned(layout, s, touch).controls.jump_touch is None,
        assigned(layout, s, touch).controls.modify_on == s.controls.modify_on,
{
}

/// A role stays with its finger while the finger is down, and is free once it has lifted:
/// each role by its own finger. A joystick that is let go points nowhere.
pub proof fn law_a_lifted_finger_lets_go(touches: Seq<Touch>, c: TouchControls)
    ensures
        ({
            let after = released(touches, c);
            &&& is_down(touches, c.move_touch) ==> after.move_touch == c.move_touch
                && after.move_dir == c.move_dir
            &&& !is_down(touches, c.move_touch) ==> after.move_touch is None && after.move_dir
                == (Point { x: 0, y: 0, z: 0 })
            &&& is_down(touches, c.look_touch) ==> after.look_touch == c.look_touch
            &&& !is_down(touches, c.look_touch) ==> after.look_touch is None
            &&& is_down(touches, c.jump_touch) ==> after.jump_touch == c.jump_touch
            &&& !is_down(touches, c.jump_touch) ==> after.jump_touch is None
            &&& after.modify_on == c.modify_on
            &&& after.move_origin == c.move_origin
        }),
{
}

/// A finger is down where some touch has its id, and is found at such a touch.
pub proof fn law_a_finger_is_where_it_touches(touches: Seq<Touch>, id: u64, k: int)
    requires
        0 <= k < touches.len(),
        touches[k].id == id,
        forall|i: int| 0 <= i < k ==> (#[trigger] touches[i]).id != id,
    ensures
        is_down(touches, Some(id)),
        finger_at(touches, id) == Some(touches[k].position),
    decreases touches.len(),
{
    if k > 0 {
        let rest = touches.skip(1);
        assert(rest[k - 1] == touches[k]);
        assert forall|i: int| 0 <= i < k - 1 implies (#[trigger] rest[i]).id != id by {
            assert(rest[i] == touches[i + 1]);
        }
        law_a_finger_is_where_it_touches(rest, id, k - 1);
        assert(touches[0].id != id);
    }
}

/// A finger that is not down is nowhere.
pub proof fn law_a_lifted_finger_is_nowhere(touches: Seq<Touch>, id: u64)
    requires
        forall|i: int| 0 <= i < touches.len() ==> (#[trigger] touches[i]).id != id,
    ensures
        !is_down(touches, Some(id)),
        finger_at(touches, id) is None,
    decreases touches.len(),
{
    if touches.len() > 0 {
        let rest = touches.skip(1);
        assert forall|i: int| 0 <= i < rest.len() implies (#[trigger] rest[i]).id != id by {
            assert(rest[i] == touches[i + 1]);
        }
        law_a_lifted_finger_is_nowhere(rest, id);
        assert(touches[0].id != id);
    }
}

/// A finger hits a button within its circle and eight pixels around it, and nowhere else.
pub proof fn law_a_button_is_hit_in_its_circle(layout: ControlLayout, center: Spot, p: Spot)
    ensures
        layout.hits(center, p) <==> (p.x - center.x) * (p.x - center.x) + (p.y - center.y) * (p.y
            - center.y) <= (layout.btn_r + 8_000) * (layout.btn_r + 8_000),
{
    crate::geom::law_distance_is_by_axes(p.flat(), center.flat());
    assert(0int * 0 == 0);
}

/// What a new finger does, button by button and half by half: the jump button jumps, the grab
/// button clicks, the modifier toggles; off the buttons the left half takes the joystick, where
/// the finger is, and the right half the view, unless another finger has it.
pub proof fn law_a_finger_does_what_it_lands_on(layout: ControlLayout, s: Classified, touch: Touch)
    requires
        s.clicks < usize::MAX,
    ensures
        ({
            let p = touch.position;
            let after = assigned(layout, s, touch);
            let clear = !layout.hits(layout.pause, p) && !layout.hits(layout.jump, p)
                && !layout.hits(layout.grab, p) && !layout.hits(layout.modify, p);
            &&& !layout.hits(layout.pause, p) && layout.hits(layout.jump, p) ==> {
                &&& after.controls.jump_touch == Some(touch.id)
                &&& after.controls.move_touch == s.controls.move_touch
                &&& after.controls.look_touch == s.controls.look_touch
                &&& after.clicks == s.clicks
            }
            &&& !layout.hits(layout.pause, p) && !layout.hits(layout.jump, p) && layout.hits(
                layout.grab,
                p,
            ) ==> after.clicks == s.clicks + 1 && after.controls == s.controls
            &&& !layout.hits(layout.pause, p) && !layout.hits(layout.jump, p) && !layout.hits(
                layout.grab,
                p,
            ) && layout.hits(layout.modify, p) ==> {
                &&& after.controls.modify_on != s.controls.modify_on
                &&& after.controls.move_touch == s.controls.move_touch
                &&& after.controls.look_touch == s.controls.look_touch
                &&& after.controls.jump_touch == s.controls.jump_touch
                &&& after.clicks == s.clicks
            }
            &&& clear && p.x + p.x < layout.width && s.controls.move_touch is None ==> {
                &&& after.controls.move_touch == Some(touch.id)
                &&& after.controls.move_origin == p
                &&& after.controls.move_knob == p
                &&& after.controls.move_dir == (Point { x: 0, y: 0, z: 0 })
                &&& after.controls.look_touch == s.controls.look_touch
                &&& after.controls.jump_touch == s.controls.jump_touch
            }
            &&& clear && p.x + p.x >= layout.width && s.controls.look_touch is None ==> {
                &&& after.controls.look_touch == Some(touch.id)
                &&& after.controls.move_touch == s.controls.move_touch
                &&& after.controls.jump_touch == s.controls.jump_touch
                &&& after.controls.move_dir == s.controls.move_dir
            }
            &&& clear && p.x + p.x < layout.width && s.controls.move_touch is Some ==> after == s
            &&& clear && p.x + p.x >= layout.width && s.controls.look_touch is Some ==> after == s
            &&& clear ==> after.clicks == s.clicks && after.controls.modify_on
                == s.controls.modify_on
            &&& !layout.hits(layout.pause, p) ==> after.pause == s.pause
        }),
{
}

/// Within its rim the joystick's knob is under the finger. Its direction is the way from where
/// the finger came down: to the right strafes right, up the screen goes forward, and the rim
/// is full speed.
pub proof fn law_the_joystick_follows_the_finger(layout: ControlLayout, c: TouchControls, at: Spot)
    requires
        layout.wf(),
        at.on_screen(),
        c.move_origin.on_screen(),
        ({
            let (x, y) = (at.x - c.move_origin.x, at.y - c.move_origin.y);
            x * x + y * y <= layout.joystick_radius * layout.joystick_radius
        }),
    ensures
        ({
            let (x, y) = (at.x - c.move_origin.x, at.y - c.move_origin.y);
            let r = layout.joystick_radius as int;
            let after = steered(layout, c, at);
            &&& after.move_knob == at
            &&& after.move_origin == c.move_origin
            &&& after.move_touch == c.move_touch
            &&& after.look_touch == c.look_touch
            &&& after.jump_touch == c.jump_touch
            &&& after.move_dir.y == 0
            &&& after.move_dir == (Point { x: 0, y: 0, z: 0 }) || {
                &&& x >= 0 ==> r * after.move_dir.x <= 1_000_000 * x < r * after.move_dir.x + r
                &&& x <= 0 ==> r * after.move_dir.x - r < 1_000_000 * x <= r * after.move_dir.x
                &&& y <= 0 ==> r * after.move_dir.z <= 1_000_000 * (-y) < r * after.move_dir.z + r
                &&& y >= 0 ==> r * after.move_dir.z - r < 1_000_000 * (-y) <= r
                    * after.move_dir.z
            }
            &&& 1_000_000 * x >= 150_000 * r || 1_000_000 * x <= -150_000 * r || 1_000_000 * y
                >= 150_000 * r || 1_000_000 * y <= -150_000 * r ==> after.move_dir != (Point {
                x: 0,
                y: 0,
                z: 0,
            })
        }),
{
    let (x, y) = (at.x - c.move_origin.x, at.y - c.move_origin.y);
    let r = layout.joystick_radius as int;
    let flat = Point { x: x as i64, y: y as i64, z: 0 };
    assert(0int * 0 == 0);
    assert(flat.len2() == x * x + y * y);
    assert(push(layout, c.move_origin, at) == flat);
    assert(x * x >= 0 && y * y >= 0) by (nonlinear_arith);
    assert(-r <= x <= r) by (nonlinear_arith)
        requires
            x * x <= r * r,
            r > 0,
    ;
    assert(-r <= y <= r) by (nonlinear_arith)
        requires
            y * y <= r * r,
            r > 0,
    ;
    crate::geom::law_scaling_rounds_towards_zero(x, 1_000_000, r);
    crate::geom::law_scaling_rounds_towards_zero(y, 1_000_000, r);
    let (sx, sy) = (share(x as i64, layout.joystick_radius), share(y as i64, layout.joystick_radius));
    lemma_share_bound(x, sx, r);
    lemma_share_bound(y, sy, r);
    assert(r * (-sy) == -(r * sy)) by (nonlinear_arith);
    let v = Point { x: sx as i64, y: 0, z: (-sy) as i64 };
    assert(v.len2() == sx * sx + (-sy) * (-sy));
    assert((-sy) * (-sy) == sy * sy) by (nonlinear_arith);
    assert(sx * sx >= 0 && sy * sy >= 0) by (nonlinear_arith);
    if sx >= 150_000 || sx <= -150_000 {
        lemma_square_at_least(sx);
    }
    if sy >= 150_000 || sy <= -150_000 {
        lemma_square_at_least(sy);
    }
}

proof fn lemma_square_at_least(s: int)
    requires
        s >= 150_000 || s <= -150_000,
    ensures
        s * s >= 150_000 * 150_000,
{
    let a = if s >= 0 {
        s
    } else {
        -s
    };
    assert(s * s == a * a) by (nonlinear_arith)
        requires
            a == s || a == -s,
    ;
    assert(a * a >= 150_000 * 150_000) by (nonlinear_arith)
        requires
            a >= 150_000,
    ;
}

proof fn lemma_share_bound(x: int, s: int, r: int)
    requires
        -r <= x <= r,
        r > 0,
        x >= 0 ==> s >= 0 && r * s <= x * 1_000_000 < r * s + r,
        x <= 0 ==> s <= 0 && r * s - r < x * 1_000_000 <= r * s,
    ensures
        -1_000_000 <= s <= 1_000_000,
        1_000_000 * x >= 150_000 * r ==> s >= 150_000,
        1_000_000 * x <= -150_000 * r ==> s <= -150_000,
{
    assert(x >= 0 ==> s <= 1_000_000) by (nonlinear_arith)
        requires
            x <= r,
            r > 0,
            x >= 0 ==> r * s <= x * 1_000_000,
    ;
    assert(x <= 0 ==> s >= -1_000_000) by (nonlinear_arith)
        requires
            -r <= x,
            r > 0,
            x <= 0 ==> x * 1_000_000 <= r * s,
    ;
    if 1_000_000 * x >= 150_000 * r {
        assert(x >= 0);
        assert(s >= 150_000) by (nonlinear_arith)
            requires
                r > 0,
                150_000 * r < r * s + r,
        ;
    }
    if 1_000_000 * x <= -150_000 * r {
        assert(x <= 0);
        assert(s <= -150_000) by (nonlinear_arith)
            requires
                r > 0,
                r * s - r < -150_000 * r,
        ;
    }
}

/// Pushed past its rim, the joystick's knob stays on the rim, on the finger's side.
pub proof fn law_the_knob_stays_in_the_ring(layout: ControlLayout, c: TouchControls, at: Spot)
    requires
        layout.wf(),
        at.on_screen(),
        c.move_origin.on_screen(),
    ensures
        ({
            let knob = steered(layout, c, at).move_knob;
            let (x, y) = (knob.x - c.move_origin.x, knob.y - c.move_origin.y);
            &&& x * x + y * y <= layout.joystick_radius * layout.joystick_radius
            &&& at.x >= c.move_origin.x ==> x >= 0
            &&& at.x <= c.move_origin.x ==> x <= 0
            &&& at.y >= c.move_origin.y ==> y >= 0
            &&& at.y <= c.move_origin.y ==> y <= 0
        }),
{
    let (x, y) = (at.x - c.move_origin.x, at.y - c.move_origin.y);
    let p = Point { x: x as i64, y: y as i64, z: 0 };
    let r = layout.joystick_radius;
    crate::geom::law_clamped_is_short(p, r as u64);
    let q = push(layout, c.move_origin, at);
    assert(q == p.clamped(r as int));
    let n = p.len2();
    assert(p.x * p.x >= 0 && p.y * p.y >= 0 && p.z * p.z >= 0) by (nonlinear_arith);
    assert(q.z * q.z >= 0) by (nonlinear_arith);
    assert(q.x * q.x + q.y * q.y <= r * r);
    assert(q.x * q.x >= 0 && q.y * q.y >= 0) by (nonlinear_arith);
    assert(-r <= q.x <= r) by (nonlinear_arith)
        requires
            q.x * q.x <= r * r,
            r > 0,
    ;
    assert(-r <= q.y <= r) by (nonlinear_arith)
        requires
            q.y * q.y <= r * r,
            r > 0,
    ;
    if n > 0 {
        crate::geom::lemma_floor_sqrt_exists((n - 1) as nat);
        let d = crate::geom::ceil_sqrt(n);
        crate::geom::law_clamping_keeps_the_direction(p, r as u64, d);
    }
}

/// The buttons stand apart: the grab button to the left of the jump button, the modifier above
/// it, all in the bottom-right corner, the pause button in the top-right one.
pub proof fn law_the_buttons_stand_in_their_corners(w: i64, h: i64)
    requires
        0 <= w <= SCREEN_LIMIT - 1_000_000,
        0 <= h <= SCREEN_LIMIT - 1_000_000,
    ensures
        ({
            let l = layout_of(w, h);
            &&& l.width == w && l.height == h
            &&& l.jump.x + l.btn_r + 16_000 == w && l.jump.y + l.btn_r + 16_000 == h
            &&& l.grab.y == l.jump.y && l.jump.x - l.grab.x == l.btn_r + l.btn_r + 18_000
            &&& l.modify.x == l.jump.x && l.jump.y - l.modify.y == l.btn_r + l.btn_r + 18_000
            &&& l.pause.x + l.pause_r + 12_000 == w && l.pause.y == l.pause_r + 12_000
            &&& 10 * l.pause_r <= 7 * l.btn_r < 10 * l.pause_r + 10
        }),
{
}

/// Buttons and joystick grow with the shorter side of the window, within their bounds.
pub proof fn law_the_controls_grow_with_the_window(w: i64, h: i64)
    requires
        0 <= w <= SCREEN_LIMIT - 1_000_000,
        0 <= h <= SCREEN_LIMIT - 1_000_000,
    ensures
        ({
            let l = layout_of(w, h);
            let s = if w < h {
                w
            } else {
                h
            };
            &&& 28_000 <= l.btn_r <= 56_000
            &&& 60_000 <= l.joystick_radius <= 140_000
            &&& 400_000 <= s <= 800_000 ==> 100 * l.btn_r <= 7 * s < 100 * l.btn_r + 100
            &&& 334_000 <= s <= 777_000 ==> 100 * l.joystick_radius <= 18 * s < 100
                * l.joystick_radius + 100
            &&& s < 400_000 ==> l.btn_r == 28_000
            &&& s > 801_000 ==> l.btn_r == 56_000
        }),
{
}

/// The joystick moves over the ground, and the jump button jumps.
pub proof fn law_touch_moves_and_jumps(c: TouchControls)
    requires
        c.move_dir.within(1_000_000),
    ensures
        touch_direction(c).x == c.move_dir.x,
        touch_direction(c).z == c.move_dir.z,
        c.jump_touch is None ==> touch_direction(c).y == c.move_dir.y,
        c.jump_touch is Some ==> touch_direction(c).y - c.move_dir.y == 1_000_000,
{
}

} // verus!
