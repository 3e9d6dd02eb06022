//! The player: keys, mouse, camera, and what it holds.

pub mod native;
pub mod orbit;
pub mod web;

use crate::client::colour::Rgba;
use crate::geom::{floor_div, lemma_product_bound, Point};
use vstd::prelude::*;

verus! {

/// The camera's pitch, in microradians: up to 89 degrees either way, 30 at first.
pub const MAX_CAMERA_PITCH: i64 = 1_553_343;

pub const MIN_CAMERA_PITCH: i64 = -1_553_343;

pub const INITIAL_CAMERA_PITCH: i64 = 523_599;

/// A full turn, in microradians.
pub const TAU: i64 = 6_283_185;

/// How far behind its centre the camera stands at first, in micrometres.
pub const INITIAL_CAMERA_DISTANCE: i64 = 20_000_000;

/// How far ahead of the camera's centre a part is held.
pub const HOLD_DISTANCE: i64 = 5_000_000;

/// Below this a player is lost.
pub const LOST_BELOW: i64 = -30_000_000;

// ---- Keys ----------------------------------------------------------------------------

/// What the keys ask for, in millionths: to the right, up and ahead.
#[derive(Clone, Copy, Debug, PartialEq, Eq, Structural)]
pub struct KeyboardDirectionalInput(pub Point);

impl Default for KeyboardDirectionalInput {
    fn default() -> (k: Self)
        ensures
            k.0 == (Point { x: 0, y: 0, z: 0 }),
    {
        KeyboardDirectionalInput(Point { x: 0, y: 0, z: 0 })
    }
}

/// The keys that move the player.
#[derive(Clone, Copy, Debug, PartialEq, Eq, Structural)]
pub struct Keys {
    pub w: bool,
    pub s: bool,
    pub d: bool,
    pub a: bool,
    pub space: bool,
}

/// One key, in millionths.
pub open spec fn pressed(key: bool) -> int {
    if key {
        1_000_000
    } else {
        0
    }
}

fn push(key: bool) -> (v: i64)
    ensures
        v == pressed(key),
{
    if key {
        1_000_000
    } else {
        0
    }
}

/// The sum of what the keys ask for. Opposite keys cancel out.
pub open spec fn keys_sum(keys: Keys) -> Point {
    Point {
        x: (pressed(keys.d) - pressed(keys.a)) as i64,
        y: pressed(keys.space) as i64,
        z: (pressed(keys.w) - pressed(keys.s)) as i64,
    }
}

/// What the keys ask for: a unit vector, however many keys are pressed, or nothing.
pub fn process_keyboard_events(keys: &Keys) -> (k: KeyboardDirectionalInput)
    ensures
        k.0 == keys_sum(*keys).unit(),
        k.0.within(2_000_000),
{
    let sum: Point = Point {
        x: push(keys.d) - push(keys.a),
        y: push(keys.space),
        z: push(keys.w) - push(keys.s),
    };
    KeyboardDirectionalInput(sum.normalize_or_zero())
}

// ---- The player and its camera -------------------------------------------------------

/// A camera that circles a point.
#[derive(Clone, Copy, Debug, PartialEq, Eq, Structural)]
pub struct OrbitingCamera {
    pub pitch: i64,
    pub entity: Option<u64>,
}

impl Default for OrbitingCamera {
    fn default() -> (c: Self)
        ensures
            c == (OrbitingCamera { pitch: INITIAL_CAMERA_PITCH, entity: None }),
    {
        OrbitingCamera { pitch: INITIAL_CAMERA_PITCH, entity: None }
    }
}

impl OrbitingCamera {
    /// The camera `entity`, at its first pitch.
    pub fn new(entity: Option<u64>) -> (c: Self)
        ensures
            c == (OrbitingCamera { pitch: INITIAL_CAMERA_PITCH, entity }),
    {
        OrbitingCamera { pitch: INITIAL_CAMERA_PITCH, entity }
    }
}

/// A player.
#[derive(Clone, Copy, Debug, PartialEq, Eq, Structural)]
pub struct Player {
    pub camera: OrbitingCamera,
}

impl Player {
    /// A player with this camera.
    pub fn new(camera: Option<u64>) -> (p: Self)
        ensures
            p.camera == (OrbitingCamera { pitch: INITIAL_CAMERA_PITCH, entity: camera }),
    {
        Player { camera: OrbitingCamera::new(camera) }
    }
}

/// What a player looks at, and what it looked at before.
#[derive(Clone, Copy, Debug, PartialEq, Eq, Structural)]
pub struct FocusedInteractable {
    pub current: Option<u64>,
    pub previous: Option<u64>,
    pub previous_color: Option<Rgba>,
}

impl Default for FocusedInteractable {
    fn default() -> (f: Self)
        ensures
            f.current is None,
            f.previous is None,
            f.previous_color is None,
    {
        FocusedInteractable { current: None, previous: None, previous_color: None }
    }
}

/// The way that a player faces, in microradians.
#[derive(Clone, Copy, Debug, PartialEq, Eq, Structural)]
pub struct Yaw(pub i64);

impl Default for Yaw {
    fn default() -> (y: Self)
        ensures
            y.0 == 0,
    {
        Yaw(0)
    }
}

/// Whether a player holds something.
#[derive(Clone, Copy, Debug, PartialEq, Eq, Structural)]
pub struct Holding(pub bool);

impl Default for Holding {
    fn default() -> (h: Self)
        ensures
            !h.0,
    {
        Holding(false)
    }
}

/// The point that the camera circles.
#[derive(Clone, Copy, Debug, PartialEq, Eq, Structural)]
pub struct CameraOrbitCenter;

/// The point that the camera circles: where it stands above the player, and how it is
/// pitched.
#[derive(Clone, Copy, Debug, PartialEq, Eq, Structural)]
pub struct CameraOrbitCenterBundle {
    pub translation: Point,
    pub pitch: i64,
}

/// The point at which a part is held.
#[derive(Clone, Copy, Debug, PartialEq, Eq, Structural)]
pub struct HoldPoint;

/// The point at which a part is held, as the camera's centre sees it.
#[derive(Clone, Copy, Debug, PartialEq, Eq, Structural)]
pub struct HoldPointBundle {
    pub translation: Point,
}

/// How a player's camera follows the mouse. Distances in micrometres; sensitivities in
/// microradians, or micrometres, for each unit of the mouse and second.
#[derive(Clone, Copy, Debug, PartialEq, Eq, Structural)]
pub struct Config {
    pub zoom_sensitivity: i64,
    pub look_sensitivity: i64,
    pub min_camera_distance: i64,
    pub max_camera_distance: i64,
    /// In millionths of the character's size.
    pub camera_offset_character_size_ratio: Point,
}

impl Config {
    /// Whether every setting is of a usual size.
    pub open spec fn valid(self) -> bool {
        &&& 0 <= self.zoom_sensitivity <= 1_000_000_000
        &&& 0 <= self.look_sensitivity <= 1_000_000_000
        &&& 0 <= self.min_camera_distance <= 1_000_000_000
        &&& 0 <= self.max_camera_distance <= 1_000_000_000
        &&& self.camera_offset_character_size_ratio.within(1_000_000_000)
    }
}

/// What stands for a player, besides its body: the camera's centre hangs on the player, and
/// the camera and the hold point hang on that centre.
#[derive(Clone, Copy, Debug, PartialEq, Eq, Structural)]
pub struct NewPlayer {
    pub player: Player,
    pub camera_orbit_center: CameraOrbitCenterBundle,
    pub hold_point: HoldPointBundle,
}

/// `ratio` of `size`, rounded down.
pub open spec fn share_of(ratio: int, size: int) -> int {
    (ratio * size) / 1_000_000
}

pub(crate) fn share_axis(ratio: i64, size: u64) -> (v: i64)
    requires
        -1_000_000_000 <= ratio <= 1_000_000_000,
        size <= 1_000_000_000,
    ensures
        v == share_of(ratio as int, size as int),
{
    proof {
        lemma_product_bound(ratio as int, size as int, 1_000_000_000, 1_000_000_000);
    }
    floor_div(ratio as i128 * size as i128, 1_000_000) as i64
}

/// A player with this camera, of a character of this size.
pub fn spawn(config: &Config, character_size: u64, camera: Option<u64>) -> (p: NewPlayer)
    requires
        config.valid(),
        character_size <= 1_000_000_000,
    ensures
        p.player.camera == (OrbitingCamera { pitch: INITIAL_CAMERA_PITCH, entity: camera }),
        ({
            let (ratio, at) = (
                config.camera_offset_character_size_ratio,
                p.camera_orbit_center.translation,
            );
            &&& at.x == share_of(ratio.x as int, character_size as int)
            &&& at.y == share_of(ratio.y as int, character_size as int)
            &&& at.z == share_of(ratio.z as int, character_size as int)
        }),
        p.camera_orbit_center.pitch == INITIAL_CAMERA_PITCH,
        p.hold_point.translation == (Point { x: 0, y: 0, z: HOLD_DISTANCE }),
{
    let ratio: Point = config.camera_offset_character_size_ratio;
    NewPlayer {
        player: Player::new(camera),
        camera_orbit_center: CameraOrbitCenterBundle {
            translation: Point {
                x: share_axis(ratio.x, character_size),
                y: share_axis(ratio.y, character_size),
                z: share_axis(ratio.z, character_size),
            },
            pitch: INITIAL_CAMERA_PITCH,
        },
        hold_point: HoldPointBundle { translation: Point { x: 0, y: 0, z: HOLD_DISTANCE } },
    }
}

/// Where the first camera stands: behind its centre.
pub fn setup() -> (camera: Point)
    ensures
        camera == (Point { x: 0, y: 0, z: (-INITIAL_CAMERA_DISTANCE) as i64 }),
{
    Point { x: 0, y: 0, z: -INITIAL_CAMERA_DISTANCE }
}

/// What hangs on a camera's centre.
#[derive(Clone, Copy, Debug, PartialEq, Eq, Structural)]
pub struct Hung {
    pub entity: u64,
    pub is_camera: bool,
}

/// The camera among what hangs on a centre: the last, if there are several.
pub open spec fn last_camera(hung: Seq<Hung>) -> Option<u64>
    decreases hung.len(),
{
    if hung.len() == 0 {
        None
    } else if hung.last().is_camera {
        Some(hung.last().entity)
    } else {
        last_camera(hung.drop_last())
    }
}

/// The camera with which a player starts again, if it fell off; the player and the centre of
/// its camera are then taken away.
pub fn respawn(height: i64, hung: &[Hung]) -> (camera: Option<u64>)
    requires
        height < LOST_BELOW ==> last_camera(hung@) is Some,
    ensures
        camera == (if height < LOST_BELOW {
            last_camera(hung@)
        } else {
            None
        }),
{
    if height >= LOST_BELOW {
        return None;
    }
    let mut camera: Option<u64> = None;
    let mut i: usize = 0;
    assert(hung@.take(0) =~= Seq::<Hung>::empty());
    while i < hung.len()
        invariant
            i <= hung.len(),
            camera == last_camera(hung@.take(i as int)),
        decreases hung.len() - i,
    {
        assert(hung@.take(i + 1).drop_last() =~= hung@.take(i as int));
        if hung[i].is_camera {
            camera = Some(hung[i].entity);
        }
        i = i + 1;
    }
    assert(hung@.take(i as int) =~= hung@);
    camera
}

// ---- Mouse ---------------------------------------------------------------------------

/// What the wheel did: what its last event says.
pub fn get_zoom_delta(events: &[i64]) -> (delta: Option<i64>)
    ensures
        delta == (if events@.len() == 0 {
            None
        } else {
            Some(events@.last())
        }),
{
    if events.len() == 0 {
        None
    } else {
        Some(events[events.len() - 1])
    }
}

/// What the mouse turns in a frame: `look` in thousandths of a unit, `dt` in nanoseconds.
pub open spec fn mouse_step(look: int, dt: int, sensitivity: int) -> int {
    (look * dt * sensitivity) / 1_000_000_000_000
}

/// The farthest that a mouse moves in a frame, and the longest frame.
pub const LOOK_LIMIT: i64 = 1_000_000_000;

pub const FRAME_LIMIT: u64 = 10_000_000_000;

pub(crate) fn step_of(look: i64, dt: u64, sensitivity: i64) -> (v: i64)
    requires
        -LOOK_LIMIT <= look <= LOOK_LIMIT,
        dt <= FRAME_LIMIT,
        0 <= sensitivity <= 1_000_000_000,
    ensures
        v == mouse_step(look as int, dt as int, sensitivity as int),
        -10_000_000_000_000_000 <= v <= 10_000_000_000_000_000,
{
    proof {
        lemma_product_bound(look as int, dt as int, 1_000_000_000, 10_000_000_000);
        lemma_product_bound(
            look * dt,
            sensitivity as int,
            10_000_000_000_000_000_000,
            1_000_000_000,
        );
    }
    floor_div(look as i128 * dt as i128 * sensitivity as i128, 1_000_000_000_000) as i64
}

/// What is left of an angle when full turns are taken off, on the same side of zero.
pub open spec fn less_turns(angle: int) -> int {
    if angle >= 0 {
        angle % (TAU as int)
    } else {
        -((-angle) % (TAU as int))
    }
}

pub(crate) fn take_off_turns(angle: i64) -> (a: i64)
    requires
        angle > i64::MIN,
    ensures
        a == less_turns(angle as int),
        -TAU < a < TAU,
{
    if angle >= 0 {
        (angle as u64 % TAU as u64) as i64
    } else {
        -((((-angle) as u64) % TAU as u64) as i64)
    }
}

/// `v`, raised to `low` and then lowered to `high`.
pub open spec fn at_least_at_most(v: int, low: int, high: int) -> int {
    let raised = if v < low {
        low
    } else {
        v
    };
    if raised > high {
        high
    } else {
        raised
    }
}

pub(crate) fn raise_and_lower(v: i64, low: i64, high: i64) -> (r: i64)
    ensures
        r == at_least_at_most(v as int, low as int, high as int),
{
    let raised: i64 = if v < low {
        low
    } else {
        v
    };
    if raised > high {
        high
    } else {
        raised
    }
}

/// The way that a player looks.
#[derive(Clone, Copy, Debug, PartialEq, Eq, Structural)]
pub struct View3d {
    pub yaw: i64,
    pub pitch: i64,
    /// How far the camera stands behind its centre.
    pub distance: i64,
}

impl View3d {
    /// Whether this is a way that a player can look.
    pub open spec fn valid(self) -> bool {
        &&& -TAU <= self.yaw <= TAU
        &&& -TAU <= self.pitch <= TAU
        &&& -1_000_000_000 <= self.distance <= 1_000_000_000
    }
}

/// Turns the player's view by what the mouse did: full turns of the yaw do not add up, the
/// pitch stays short of straight up and down, and the wheel moves the camera between its
/// nearest and its farthest distance.
pub fn process_mouse_events(
    view: &View3d,
    look_x: i64,
    look_y: i64,
    zoom: Option<i64>,
    dt: u64,
    config: &Config,
) -> (v: View3d)
    requires
        view.valid(),
        config.valid(),
        -LOOK_LIMIT <= look_x <= LOOK_LIMIT,
        -LOOK_LIMIT <= look_y <= LOOK_LIMIT,
        zoom matches Some(z) ==> -LOOK_LIMIT <= z <= LOOK_LIMIT,
        dt <= FRAME_LIMIT,
    ensures
        v.valid(),
        v.yaw == less_turns(
            view.yaw + mouse_step(look_x as int, dt as int, config.look_sensitivity as int),
        ),
        v.pitch == at_least_at_most(
            view.pitch + mouse_step(look_y as int, dt as int, config.look_sensitivity as int),
            MIN_CAMERA_PITCH as int,
            MAX_CAMERA_PITCH as int,
        ),
        v.distance == match zoom {
            None => view.distance as int,
            Some(z) => at_least_at_most(
                view.distance - mouse_step(z as int, dt as int, config.zoom_sensitivity as int),
                config.min_camera_distance as int,
                config.max_camera_distance as int,
            ),
        },
{
    let yaw: i64 = take_off_turns(view.yaw + step_of(look_x, dt, config.look_sensitivity));
    let pitch: i64 = raise_and_lower(
        view.pitch + step_of(look_y, dt, config.look_sensitivity),
        MIN_CAMERA_PITCH,
        MAX_CAMERA_PITCH,
    );
    let distance: i64 = match zoom {
        None => view.distance,
        Some(z) => raise_and_lower(
            view.distance - step_of(z, dt, config.zoom_sensitivity),
            config.min_camera_distance,
            config.max_camera_distance,
        ),
    };
    View3d { yaw, pitch, distance }
}

/// What a click does to the part that is looked at.
#[derive(Clone, Copy, Debug, PartialEq, Eq, Structural)]
pub enum HoldChange {
    /// Nothing.
    Keep,
    /// It is to keep its orientation from now on, and turns with a damping of one.
    Take(u64),
    /// It is let go, and turns freely.
    Release(u64),
}

/// Takes the part that is looked at, or lets go of it. `holdable` says whether it can be
/// held at all and has a body.
pub fn initiate_holding(
    click: bool,
    holding: &mut Holding,
    focused: &FocusedInteractable,
    holdable: bool,
) -> (change: HoldChange)
    ensures
        match focused.current {
            Some(part) if click && holdable => {
                &&& final(holding).0 == !old(holding).0
                &&& change == (if old(holding).0 {
                    HoldChange::Release(part)
                } else {
                    HoldChange::Take(part)
                })
            },
            _ => *final(holding) == *old(holding) && change == HoldChange::Keep,
        },
{
    if !click || !holdable {
        return HoldChange::Keep;
    }
    match focused.current {
        None => HoldChange::Keep,
        Some(part) => if holding.0 {
            holding.0 = false;
            HoldChange::Release(part)
        } else {
            holding.0 = true;
            HoldChange::Take(part)
        },
    }
}

/// The law of the keys: opposite keys cancel out, and without a key nothing is asked for.
pub proof fn law_opposite_keys_cancel(keys: Keys)
    ensures
        keys.w == keys.s ==> keys_sum(keys).z == 0,
        keys.a == keys.d ==> keys_sum(keys).x == 0,
        keys.w == keys.s && keys.a == keys.d && !keys.space ==> keys_sum(keys).unit() == (Point {
            x: 0,
            y: 0,
            z: 0,
        }),
{
    assert((Point { x: 0, y: 0, z: 0 }).len2() == 0) by (nonlinear_arith);
}

/// The law of turning: taking off full turns leaves an angle that differs by full turns.
pub proof fn law_full_turns_are_taken_off(angle: int)
    ensures
        -TAU < less_turns(angle) < TAU,
        (angle - less_turns(angle)) % (TAU as int) == 0,
{
    let t = TAU as int;
    if angle >= 0 {
        vstd::arithmetic::div_mod::lemma_fundamental_div_mod(angle, t);
        vstd::arithmetic::div_mod::lemma_mod_multiples_basic(angle / t, t);
        assert(angle - less_turns(angle) == (angle / t) * t) by (nonlinear_arith)
            requires
                angle == t * (angle / t) + angle % t,
                less_turns(angle) == angle % t,
        ;
    } else {
        let b = -angle;
        vstd::arithmetic::div_mod::lemma_fundamental_div_mod(b, t);
        vstd::arithmetic::div_mod::lemma_mod_multiples_basic(-(b / t), t);
        assert(angle - less_turns(angle) == (-(b / t)) * t) by (nonlinear_arith)
            requires
                b == t * (b / t) + b % t,
                less_turns(angle) == -(b % t),
                b == -angle,
        ;
    }
}

/// W asks ahead and S back, D to the right and A to the left, and the space bar up, each for a
/// full unit.
pub proof fn law_keys_ask_their_way(keys: Keys)
    ensures
        keys.w && !keys.s ==> keys_sum(keys).z == 1_000_000,
        keys.s && !keys.w ==> keys_sum(keys).z == -1_000_000,
        keys.d && !keys.a ==> keys_sum(keys).x == 1_000_000,
        keys.a && !keys.d ==> keys_sum(keys).x == -1_000_000,
        keys.space ==> keys_sum(keys).y == 1_000_000,
        !keys.space ==> keys_sum(keys).y == 0,
{
}

/// A share of a size is that many millionths of it, rounded down.
pub proof fn law_a_share_is_in_millionths(ratio: int, size: int)
    ensures
        1_000_000 * share_of(ratio, size) <= ratio * size < 1_000_000 * share_of(ratio, size)
            + 1_000_000,
{
}

/// The camera with which a player starts again is the last that hangs on the centre.
pub proof fn law_the_last_camera_is_kept(hung: Seq<Hung>, h: Hung)
    ensures
        h.is_camera ==> last_camera(hung.push(h)) == Some(h.entity),
        !h.is_camera ==> last_camera(hung.push(h)) == last_camera(hung),
        last_camera(Seq::empty()) is None,
{
    assert(hung.push(h).drop_last() == hung);
}

/// The mouse turns the view the way it moves, in proportion to its motion, to the time and to
/// how finely it is set.
pub proof fn law_the_mouse_turns_in_proportion(look: int, dt: int, sensitivity: int)
    requires
        0 <= dt,
        0 <= sensitivity,
    ensures
        1_000_000_000_000 * mouse_step(look, dt, sensitivity) <= look * dt * sensitivity
            < 1_000_000_000_000 * mouse_step(look, dt, sensitivity) + 1_000_000_000_000,
        look >= 0 ==> mouse_step(look, dt, sensitivity) >= 0,
        look <= 0 ==> mouse_step(look, dt, sensitivity) <= 0,
{
    assert(look >= 0 ==> look * dt >= 0) by (nonlinear_arith)
        requires
            0 <= dt,
    ;
    assert(look <= 0 ==> look * dt <= 0) by (nonlinear_arith)
        requires
            0 <= dt,
    ;
    let a = look * dt;
    assert(a >= 0 ==> a * sensitivity >= 0) by (nonlinear_arith)
        requires
            0 <= sensitivity,
    ;
    assert(a <= 0 ==> a * sensitivity <= 0) by (nonlinear_arith)
        requires
            0 <= sensitivity,
    ;
}

/// An angle short of a full turn is left alone, and one of more stays on its side of zero.
pub proof fn law_a_small_angle_is_kept(angle: int)
    ensures
        -6_283_185 < angle < 6_283_185 ==> less_turns(angle) == angle,
        angle >= 0 ==> less_turns(angle) >= 0,
        angle <= 0 ==> less_turns(angle) <= 0,
{
    if 0 <= angle < 6_283_185 {
        vstd::arithmetic::div_mod::lemma_small_mod(angle as nat, 6_283_185);
    }
    if -6_283_185 < angle < 0 {
        vstd::arithmetic::div_mod::lemma_small_mod((-angle) as nat, 6_283_185);
    }
}

/// A value within its bounds is left alone; one outside becomes the nearer bound.
pub proof fn law_bounds_are_kept(v: int, low: int, high: int)
    requires
        low <= high,
    ensures
        low <= v <= high ==> at_least_at_most(v, low, high) == v,
        v <= low ==> at_least_at_most(v, low, high) == low,
        v >= high ==> at_least_at_most(v, low, high) == high,
{
}

} // verus!
