//! The flames of the rockets and the light they throw.
//!
//! Strengths are in millionths and lengths in micrometres.

use vstd::prelude::*;
use crate::client::render_secondary_pass::Visibility;
use crate::geom::{floor_div, Point};
use crate::geom::lemma_product_bound;

verus! {

/// How far the plume reaches at full throttle.
pub const FLAME_LENGTH: i64 = 9_600_000;

/// The distance that stands for no ground within reach (a thousand kilometres).
pub const NO_GROUND: i64 = 1_000_000_000_000;

/// How fast the shown strength follows the throttle, in hundredths per second: it snaps on
/// and fades out.
pub const ATTACK_RATE: u32 = 1_000;

pub const DECAY_RATE: u32 = 350;

/// Below this strength there is no flame.
pub const LEAST_STRENGTH: i64 = 20_000;

/// Points a rocket at its flame.
#[derive(Clone, Copy, Debug, PartialEq, Eq, Structural)]
pub struct FlameOf(pub u64);

/// Points a rocket at the light of its flame.
#[derive(Clone, Copy, Debug, PartialEq, Eq, Structural)]
pub struct FlameLightOf(pub u64);

/// Marks the light of a flame.
#[derive(Clone, Copy, Debug, PartialEq, Eq, Structural)]
pub struct FlameLight;

/// The mesh that all flames share: a cylinder, of radius and height one.
#[derive(Clone, Copy, Debug, PartialEq, Eq, Structural)]
pub struct FlameMesh {
    pub radius: i64,
    pub height: i64,
    pub resolution: u32,
    pub segments: u32,
}

/// The mesh of the flames: fine enough along its height for the bend at the ground.
pub fn register_flame_mesh() -> (mesh: FlameMesh)
    ensures
        mesh == (FlameMesh { radius: 1_000_000, height: 1_000_000, resolution: 32, segments: 32 }),
{
    FlameMesh { radius: 1_000_000, height: 1_000_000, resolution: 32, segments: 32 }
}

/// What the shader gets of a flame.
#[derive(Clone, Copy, Debug, PartialEq, Eq, Structural)]
pub struct FlameParams {
    pub strength: i64,
    pub ground_dist: i64,
    /// Where the flame is in its flicker, in thousandths.
    pub phase: i64,
    pub flame_len: i64,
    /// The ground's normal where the plume hits it, in millionths.
    pub ground_normal: Point,
}

impl Default for FlameParams {
    fn default() -> (p: FlameParams)
        ensures
            p == (FlameParams {
                strength: 0,
                ground_dist: NO_GROUND,
                phase: 0,
                flame_len: FLAME_LENGTH,
                ground_normal: Point { x: 0, y: 1_000_000, z: 0 },
            }),
    {
        FlameParams {
            strength: 0,
            ground_dist: NO_GROUND,
            phase: 0,
            flame_len: FLAME_LENGTH,
            ground_normal: Point { x: 0, y: 1_000_000, z: 0 },
        }
    }
}

/// The throttle of a rocket's flame: what the thrust asks for, and what is shown.
#[derive(Clone, Copy, Debug, PartialEq, Eq, Structural)]
pub struct FlameThrottle {
    pub target: i64,
    pub eased: i64,
}

impl FlameThrottle {
    pub open spec fn valid(self) -> bool {
        0 <= self.target <= 1_000_000 && 0 <= self.eased <= 1_000_000
    }
}

impl Default for FlameThrottle {
    fn default() -> (t: FlameThrottle)
        ensures
            t == (FlameThrottle { target: 0, eased: 0 }),
    {
        FlameThrottle { target: 0, eased: 0 }
    }
}

/// A flame as it is spawned.
#[derive(Clone, Copy, Debug, PartialEq, Eq, Structural)]
pub struct NewFlame {
    pub params: FlameParams,
    pub visibility: Visibility,
    /// The height of the flare's exit.
    pub y: i64,
    /// The height of the light below it.
    pub light_y: i64,
    pub light_intensity: u64,
    pub light_range: i64,
    pub throttle: FlameThrottle,
}

/// The flame of a new rocket: hidden and dark until the rocket burns, at the exit of its
/// flare. Rockets flicker out of step with each other. `flare_y` is the middle of the
/// flare and `flare_height` its height.
pub fn spawn_flame(entity: u64, flare_y: i64, flare_height: i64) -> (flame: NewFlame)
    requires
        -0x1000_0000_0000 <= flare_y <= 0x1000_0000_0000,
        0 <= flare_height <= 0x1000_0000_0000,
    ensures
        flame.params == (FlameParams {
            strength: 0,
            ground_dist: NO_GROUND,
            phase: ((entity % 251) * 417) as i64,
            flame_len: FLAME_LENGTH,
            ground_normal: Point { x: 0, y: 1_000_000, z: 0 },
        }),
        flame.visibility == Visibility::Hidden,
        flame.y == flare_y - flare_height / 2,
        flame.light_y == -FLAME_LENGTH / 2,
        flame.light_intensity == 0,
        flame.light_range == 24_000_000,
        flame.throttle == (FlameThrottle { target: 0, eased: 0 }),
{
    let phase: i64 = ((entity % 251) * 417) as i64;
    NewFlame {
        params: FlameParams {
            strength: 0,
            ground_dist: NO_GROUND,
            phase,
            flame_len: FLAME_LENGTH,
            ground_normal: Point { x: 0, y: 1_000_000, z: 0 },
        },
        visibility: Visibility::Hidden,
        y: flare_y - flare_height / 2,
        light_y: -4_800_000,
        light_intensity: 0,
        light_range: 24_000_000,
        throttle: FlameThrottle { target: 0, eased: 0 },
    }
}

// ---- One frame -----------------------------------------------------------------------

/// The rate at which the shown strength follows the throttle now.
pub fn flame_rate(throttle: &FlameThrottle) -> (rate: u32)
    ensures
        rate == if throttle.target > throttle.eased {
            ATTACK_RATE
        } else {
            DECAY_RATE
        },
{
    if throttle.target > throttle.eased {
        ATTACK_RATE
    } else {
        DECAY_RATE
    }
}

/// The shown strength after a frame that closes `share` millionths of the gap.
pub open spec fn eased_to(t: FlameThrottle, share: int) -> int {
    t.eased + ((t.target - t.eased) * share) / 1_000_000
}

/// The light of a flame: how far down the plume it is, and how bright, in lumens.
#[derive(Clone, Copy, Debug, PartialEq, Eq, Structural)]
pub struct LightState {
    pub y: i64,
    pub intensity: i64,
}

/// Where the exhaust meets the ground, in the flame's own frame.
#[derive(Clone, Copy, Debug, PartialEq, Eq, Structural)]
pub struct Splash {
    pub distance: i64,
    pub normal: Point,
}

/// How far down the plume the light sits: on the splash if there is one within reach,
/// otherwise halfway down.
pub open spec fn light_depth(eased: int, splash: Option<Splash>) -> int {
    let length = (FLAME_LENGTH * eased) / 1_000_000;
    let reach = if length < 500_000 {
        500_000
    } else {
        length
    };
    match splash {
        Some(s) if s.distance < NO_GROUND => if s.distance < reach {
            s.distance as int
        } else {
            reach
        },
        _ => reach / 2,
    }
}

/// The brightness of the light, in lumens.
pub open spec fn light_power(eased: int) -> int {
    6 * eased
}

pub open spec fn apart(a: int, b: int) -> int {
    if a >= b {
        a - b
    } else {
        b - a
    }
}

/// The light after a frame. A change too small to see is not written, so that a steady
/// burn leaves the light alone.
pub open spec fn light_after(light: LightState, eased: int, splash: Option<Splash>) -> LightState {
    let d = light_depth(eased, splash);
    let i = light_power(eased);
    LightState {
        y: if apart(light.y as int, -d) > 1_000 {
            (-d) as i64
        } else {
            light.y
        },
        intensity: if apart(light.intensity as int, i) > 12_000 {
            i as i64
        } else {
            light.intensity
        },
    }
}

/// The ground that the shader is told of.
pub open spec fn ground_of(splash: Option<Splash>) -> Splash {
    match splash {
        Some(s) => s,
        None => Splash { distance: NO_GROUND, normal: Point { x: 0, y: 1_000_000, z: 0 } },
    }
}

/// Whether what the shader has is off by more than can be seen.
pub open spec fn params_are_stale(p: FlameParams, eased: int, ground: Splash) -> bool {
    ||| apart(p.strength as int, eased) > 2_000
    ||| apart(p.ground_dist as int, ground.distance as int) > 10_000
    ||| p.ground_normal.dist2(ground.normal) > 100_000_000
}

/// What the shader has after a frame.
pub open spec fn params_after(p: FlameParams, eased: int, splash: Option<Splash>) -> FlameParams {
    let ground = ground_of(splash);
    if params_are_stale(p, eased, ground) {
        FlameParams {
            strength: eased as i64,
            ground_dist: ground.distance,
            ground_normal: ground.normal,
            ..p
        }
    } else {
        p
    }
}

/// A rocket's flame: its throttle, whether it shows, its light and what the shader has.
#[derive(Clone, Copy, Debug, PartialEq, Eq, Structural)]
pub struct Flame {
    pub throttle: FlameThrottle,
    pub visibility: Visibility,
    pub light: LightState,
    pub params: FlameParams,
}

impl Flame {
    pub open spec fn valid(self) -> bool {
        &&& self.throttle.valid()
        &&& -NO_GROUND <= self.light.y <= NO_GROUND
        &&& 0 <= self.light.intensity <= 6_000_000
        &&& 0 <= self.params.strength <= 1_000_000
        &&& 0 <= self.params.ground_dist <= NO_GROUND
        &&& self.params.ground_normal.within(2_000_000)
    }
}

/// The flame after a frame that closes `share` millionths of the gap to its throttle.
/// `splash` is where its exhaust meets the ground.
pub open spec fn flame_after(flame: Flame, share: int, splash: Option<Splash>) -> Flame {
    let eased = eased_to(flame.throttle, share);
    let throttle = FlameThrottle { target: flame.throttle.target, eased: eased as i64 };
    if eased < LEAST_STRENGTH {
        Flame {
            throttle,
            visibility: Visibility::Hidden,
            light: LightState { y: flame.light.y, intensity: 0 },
            params: flame.params,
        }
    } else {
        Flame {
            throttle,
            visibility: Visibility::Visible,
            light: light_after(flame.light, eased, splash),
            params: params_after(flame.params, eased, splash),
        }
    }
}

fn far(a: i64, b: i64, by: i64) -> (r: bool)
    requires
        -NO_GROUND <= a <= NO_GROUND,
        -NO_GROUND <= b <= NO_GROUND,
    ensures
        r == (apart(a as int, b as int) > by),
{
    if a >= b {
        a - b > by
    } else {
        b - a > by
    }
}

/// The light after a frame.
fn move_light(light: &LightState, eased: i64, splash: Option<Splash>) -> (l: LightState)
    requires
        -NO_GROUND <= light.y <= NO_GROUND,
        0 <= light.intensity <= 6_000_000,
        0 <= eased <= 1_000_000,
        splash matches Some(s) ==> 0 <= s.distance <= NO_GROUND,
    ensures
        l == light_after(*light, eased as int, splash),
        -NO_GROUND <= l.y <= NO_GROUND,
        0 <= l.intensity <= 6_000_000,
{
    let length: i64 = 9_600_000 * eased / 1_000_000;
    let reach: i64 = if length < 500_000 {
        500_000
    } else {
        length
    };
    let depth: i64 = match splash {
        Some(s) => if s.distance < NO_GROUND {
            if s.distance < reach {
                s.distance
            } else {
                reach
            }
        } else {
            reach / 2
        },
        None => reach / 2,
    };
    let power: i64 = 6 * eased;
    LightState {
        y: if far(light.y, -depth, 1_000) {
            -depth
        } else {
            light.y
        },
        intensity: if far(light.intensity, power, 12_000) {
            power
        } else {
            light.intensity
        },
    }
}

/// One frame of a flame: the shown strength follows the throttle, the light slides to
/// where the plume ends, and the shader is told what changed. `share` is how much of the
/// gap to the throttle the frame closes, in millionths.
pub fn update_flames(flame: &mut Flame, share: i64, splash: Option<Splash>)
    requires
        old(flame).valid(),
        0 <= share <= 1_000_000,
        splash matches Some(s) ==> 0 <= s.distance <= NO_GROUND && s.normal.within(2_000_000),
    ensures
        *final(flame) == flame_after(*old(flame), share as int, splash),
        final(flame).valid(),
{
    let gap: i64 = flame.throttle.target - flame.throttle.eased;
    proof {
        lemma_product_bound(gap as int, share as int, 1_000_000, 1_000_000);
        lemma_eases_between(flame.throttle, share as int);
    }
    let eased: i64 = (flame.throttle.eased as i128 + floor_div(
        gap as i128 * share as i128,
        1_000_000,
    )) as i64;
    flame.throttle.eased = eased;
    if eased < LEAST_STRENGTH {
        flame.visibility = Visibility::Hidden;
        if flame.light.intensity != 0 {
            flame.light.intensity = 0;
        }
        return;
    }
    flame.visibility = Visibility::Visible;
    flame.light = move_light(&flame.light, eased, splash);
    let ground: Splash = match splash {
        Some(s) => s,
        None => Splash { distance: NO_GROUND, normal: Point { x: 0, y: 1_000_000, z: 0 } },
    };
    if far(flame.params.strength, eased, 2_000) || far(
        flame.params.ground_dist,
        ground.distance,
        10_000,
    ) || flame.params.ground_normal.distance_squared(&ground.normal) > 100_000_000 {
        flame.params.strength = eased;
        flame.params.ground_dist = ground.distance;
        flame.params.ground_normal = ground.normal;
    }
}

/// The shown strength stays between where it was and the throttle.
proof fn lemma_eases_between(t: FlameThrottle, share: int)
    requires
        0 <= share <= 1_000_000,
    ensures
        t.eased <= t.target ==> t.eased <= eased_to(t, share) <= t.target,
        t.target <= t.eased ==> t.target <= eased_to(t, share) <= t.eased,
{
    let d = t.target - t.eased;
    if d >= 0 {
        assert(0 <= d * share <= d * 1_000_000) by (nonlinear_arith)
            requires
                0 <= d,
                0 <= share <= 1_000_000,
        ;
    } else {
        assert(d * 1_000_000 <= d * share <= 0) by (nonlinear_arith)
            requires
                d < 0,
                0 <= share <= 1_000_000,
        ;
    }
}

/// The flame never overshoots its throttle, and a dark flame gives no light.
pub proof fn law_flames_follow_their_throttle(flame: Flame, share: int, splash: Option<Splash>)
    requires
        flame.valid(),
        0 <= share <= 1_000_000,
    ensures
        ({
            let after = flame_after(flame, share, splash);
            let (was, now, target) = (
                flame.throttle.eased,
                after.throttle.eased,
                flame.throttle.target,
            );
            &&& was <= target ==> was <= now <= target
            &&& target <= was ==> target <= now <= was
            &&& after.visibility == Visibility::Hidden ==> after.light.intensity == 0
            &&& after.visibility == Visibility::Visible <==> now >= LEAST_STRENGTH
        }),
{
    lemma_eases_between(flame.throttle, share);
}

/// A burn that has settled writes nothing more: with the throttle reached and the same
/// ground below, another frame changes nothing.
pub proof fn law_a_settled_burn_is_quiet(flame: Flame, share: int, splash: Option<Splash>)
    requires
        flame.valid(),
        0 <= share <= 1_000_000,
        flame.throttle.eased == flame.throttle.target,
    ensures
        ({
            let once = flame_after(flame, share, splash);
            flame_after(once, share, splash) == once
        }),
{
    let e = flame.throttle.eased as int;
    assert((e - e) * share == 0) by (nonlinear_arith);
    let once = flame_after(flame, share, splash);
    assert(once.throttle.eased == e && once.throttle.target == e);
    let ground = ground_of(splash);
    assert(ground.normal.dist2(ground.normal) == 0) by {
        assert(0int * 0int == 0) by (nonlinear_arith);
        assert(crate::geom::square(0) == 0);
    }
}

/// A frame closes its share of the gap between the shown strength and the throttle, to the
/// millionth: none or all of it where that is the share.
pub proof fn law_flames_close_their_share(t: FlameThrottle, share: int)
    ensures
        1_000_000 * (eased_to(t, share) - t.eased) <= (t.target - t.eased) * share < 1_000_000 * (
        eased_to(t, share) - t.eased) + 1_000_000,
        share == 1_000_000 ==> eased_to(t, share) == t.target,
        share == 0 ==> eased_to(t, share) == t.eased,
{
    let d = t.target - t.eased;
    assert(share == 1_000_000 ==> d * share == 1_000_000 * d) by (nonlinear_arith);
    assert(share == 0 ==> d * share == 0) by (nonlinear_arith);
}

/// The light sits on the splash where the exhaust reaches the ground, at the end of the plume
/// where it does not reach so far, and without ground halfway down. A full flame is 9.6 metres
/// long, and none is shorter than half a metre to its light.
pub proof fn law_the_light_sits_on_the_splash(eased: int, s: Splash)
    requires
        0 <= eased <= 1_000_000,
        0 <= s.distance < 1_000_000_000_000,
    ensures
        10 * s.distance <= 96 * eased || s.distance <= 500_000 ==> light_depth(eased, Some(s))
            == s.distance,
        light_depth(eased, Some(s)) <= s.distance,
        light_depth(eased, None) + light_depth(eased, None) <= if 10 * 500_000 >= 96 * eased {
            500_000
        } else {
            (96 * eased) / 10
        },
        96 * eased >= 5_000_010 ==> 20 * light_depth(eased, None) + 30 > 96 * eased,
{
    let length = (FLAME_LENGTH * eased) / 1_000_000;
    assert(FLAME_LENGTH * eased == 9_600_000 * eased);
}

/// The light is as bright as the flame is strong: six million lumens at full strength.
pub proof fn law_the_light_is_as_bright_as_the_flame(a: int, b: int)
    ensures
        light_power(a + b) == light_power(a) + light_power(b),
        light_power(1_000_000) == 6_000_000,
        apart(a, b) == apart(b, a),
        a >= b ==> apart(a, b) + b == a,
{
}

/// A flame strong enough to show lights up below its exit, within a millimetre of its depth and
/// a five-hundredth of its brightness, and its shader has its strength and its ground to what
/// can be seen.
pub proof fn law_a_flame_shows_what_burns(flame: Flame, share: int, splash: Option<Splash>, eased: int)
    requires
        flame.valid(),
        0 <= share <= 1_000_000,
        splash matches Some(s) ==> 0 <= s.distance <= NO_GROUND && s.normal.within(2_000_000),
        eased == eased_to(flame.throttle, share),
    ensures
        ({
            let after = flame_after(flame, share, splash);
            let depth = light_depth(eased, splash);
            let (dist, n) = match splash {
                Some(s) => (s.distance as int, s.normal),
                None => (1_000_000_000_000, Point { x: 0, y: 1_000_000, z: 0 }),
            };
            let m = after.params.ground_normal;
            &&& after.throttle.eased == eased && after.throttle.target == flame.throttle.target
            &&& eased >= 20_000 ==> {
                &&& after.visibility == Visibility::Visible
                &&& -1_000 <= after.light.y + depth <= 1_000
                &&& -12_000 <= after.light.intensity - 6 * eased <= 12_000
                &&& -2_000 <= after.params.strength - eased <= 2_000
                &&& -10_000 <= after.params.ground_dist - dist <= 10_000
                &&& (m.x - n.x) * (m.x - n.x) + (m.y - n.y) * (m.y - n.y) + (m.z - n.z) * (m.z
                    - n.z) <= 100_000_000
            }
            &&& eased < 20_000 ==> after.visibility == Visibility::Hidden && after.light.intensity
                == 0 && after.params == flame.params && after.light.y == flame.light.y
            &&& after.params.phase == flame.params.phase && after.params.flame_len
                == flame.params.flame_len
        }),
{
    let t = flame.throttle;
    law_flames_follow_their_throttle(flame, share, splash);
    let d = t.target - t.eased;
    assert(0 <= eased <= 1_000_000) by {
        lemma_eased_stays(t, share);
    }
    let ground = ground_of(splash);
    crate::geom::law_distance_is_by_axes(flame.params.ground_normal, ground.normal);
    crate::geom::law_distance_is_by_axes(ground.normal, ground.normal);
    let length = (FLAME_LENGTH * eased) / 1_000_000;
    assert(FLAME_LENGTH * eased == 9_600_000 * eased);
    assert(0 <= length <= 9_600_000);
}

proof fn lemma_eased_stays(t: FlameThrottle, share: int)
    requires
        t.valid(),
        0 <= share <= 1_000_000,
    ensures
        0 <= eased_to(t, share) <= 1_000_000,
{
    let d = t.target - t.eased;
    if d >= 0 {
        assert(0 <= d * share <= d * 1_000_000) by (nonlinear_arith)
            requires
                d >= 0,
                0 <= share <= 1_000_000,
        ;
    } else {
        assert(d * 1_000_000 <= d * share <= 0) by (nonlinear_arith)
            requires
                d <= 0,
                0 <= share <= 1_000_000,
        ;
    }
}

} // verus!
