//! The scene, the camera and the control panel of the simulator.

use vstd::prelude::*;
use vstd::string::*;
use crate::geom::{integer_sqrt, Point};
use crate::geom::{floor_sqrt, lemma_product_bound};
use super::body::{cap_radius, cap_transform, BuoyPart, CapPose};
use super::body::cap_pose;
use super::hydro::Shape;
use super::{Method, SimParams};
use super::{SPAWN_HEIGHT, WATER_DEPTH, WATER_LEVEL, WATER_SIZE};

verus! {

// ---- The scene -----------------------------------------------------------------------

/// A slab: the height of its middle, its thickness and its width.
#[derive(Clone, Copy, Debug, PartialEq, Eq, Structural)]
pub struct Slab {
    pub y: i64,
    pub thickness: i64,
    pub width: i64,
}

/// A shown piece of the body as it is first spawned.
#[derive(Clone, Copy, Debug, PartialEq, Eq, Structural)]
pub struct ScenePart {
    pub part: BuoyPart,
    pub hidden: bool,
    /// The radius and pose of an end disc.
    pub disc: Option<Disc>,
}

/// An end disc.
#[derive(Clone, Copy, Debug, PartialEq, Eq, Structural)]
pub struct Disc {
    pub radius: i64,
    pub pose: CapPose,
}

/// The scene at the start.
pub struct Scene {
    /// Shown only: the body passes through the surface.
    pub water: Slab,
    /// Solid, so that a body that sinks comes to rest on it.
    pub floor: Slab,
    /// The height of the body.
    pub body_y: i64,
    pub parts: Vec<ScenePart>,
}

/// The disc at one end.
pub open spec fn disc_at(shape: Shape, upper: bool) -> Disc {
    Disc {
        radius: if upper {
            shape.r_top
        } else {
            shape.r_bottom
        },
        pose: cap_pose(shape, upper),
    }
}

/// The pieces of the body at the start. The cavity's wall waits hidden for the first
/// rebuild, which alone knows whether the body is hollow.
pub open spec fn scene_parts(shape: Shape) -> Seq<ScenePart> {
    seq![
        ScenePart { part: BuoyPart::Side, hidden: false, disc: None },
        ScenePart { part: BuoyPart::InnerSide, hidden: true, disc: None },
        ScenePart {
            part: BuoyPart::Cap { upper: true },
            hidden: false,
            disc: Some(disc_at(shape, true)),
        },
        ScenePart {
            part: BuoyPart::Cap { upper: false },
            hidden: false,
            disc: Some(disc_at(shape, false)),
        },
    ]
}

/// The scene: the water with its surface at [`WATER_LEVEL`], the floor under it, and the
/// body in the air.
pub fn setup(params: &SimParams) -> (scene: Scene)
    requires
        params.shape.valid(),
    ensures
        scene.water == (Slab {
            y: (WATER_LEVEL - WATER_DEPTH / 2) as i64,
            thickness: WATER_DEPTH,
            width: WATER_SIZE,
        }),
        scene.water.y + scene.water.thickness / 2 == WATER_LEVEL,
        scene.floor == (Slab {
            y: (WATER_LEVEL - WATER_DEPTH - 500_000) as i64,
            thickness: 1_000_000,
            width: WATER_SIZE,
        }),
        scene.floor.y + scene.floor.thickness / 2 == WATER_LEVEL - WATER_DEPTH,
        scene.body_y == SPAWN_HEIGHT,
        scene.parts@ == scene_parts(params.shape),
{
    let shape: Shape = params.shape;
    let mut parts: Vec<ScenePart> = Vec::new();
    parts.push(ScenePart { part: BuoyPart::Side, hidden: false, disc: None });
    parts.push(ScenePart { part: BuoyPart::InnerSide, hidden: true, disc: None });
    parts.push(
        ScenePart {
            part: BuoyPart::Cap { upper: true },
            hidden: false,
            disc: Some(
                Disc { radius: cap_radius(&shape, true), pose: cap_transform(&shape, true) },
            ),
        },
    );
    parts.push(
        ScenePart {
            part: BuoyPart::Cap { upper: false },
            hidden: false,
            disc: Some(
                Disc { radius: cap_radius(&shape, false), pose: cap_transform(&shape, false) },
            ),
        },
    );
    assert(parts@ =~= scene_parts(shape));
    Scene {
        water: Slab { y: -3_000_000, thickness: WATER_DEPTH, width: WATER_SIZE },
        floor: Slab { y: -6_500_000, thickness: 1_000_000, width: WATER_SIZE },
        body_y: SPAWN_HEIGHT,
        parts,
    }
}

/// Where a reset puts the body, at rest.
#[derive(Clone, Copy, Debug, PartialEq, Eq, Structural)]
pub struct ResetPose {
    pub position: Point,
    /// Tilt about z, in millionths of a degree.
    pub tilt: u32,
}

/// Answers a request for a reset: the body goes back into the air, tilted as the panel
/// says, to drop again.
pub fn handle_reset(requested: &mut bool, params: &SimParams) -> (pose: Option<ResetPose>)
    ensures
        !*final(requested),
        pose == if *old(requested) {
            Some(
                ResetPose {
                    position: Point { x: 0, y: SPAWN_HEIGHT, z: 0 },
                    tilt: params.start_angle,
                },
            )
        } else {
            None
        },
{
    if !*requested {
        return None;
    }
    *requested = false;
    Some(
        ResetPose {
            position: Point { x: 0, y: SPAWN_HEIGHT, z: 0 },
            tilt: params.start_angle,
        },
    )
}

// ---- The camera ----------------------------------------------------------------------

/// The lowest and highest elevation of the camera, in microradians.
pub const LEAST_PITCH: i64 = -785_398;

pub const MOST_PITCH: i64 = 1_500_000;

/// How near and how far the camera goes.
pub const LEAST_ZOOM: u64 = 6_000_000;

pub const MOST_ZOOM: u64 = 72_000_000;

/// How far a drag may run, in thousandths of a pixel (2^35), and a yaw, in microradians
/// (2^60).
pub const DRAG_LIMIT: i64 = 0x8_0000_0000;

pub const YAW_LIMIT: i64 = 0x1000_0000_0000_0000;

/// The camera's orbit around the body: yaw and elevation in microradians, and distance.
#[derive(Clone, Copy, Debug, PartialEq, Eq, Structural)]
pub struct OrbitCamera {
    pub yaw: i64,
    pub pitch: i64,
    pub distance: u64,
}

impl OrbitCamera {
    /// Whether the camera keeps to its elevations and distances.
    pub open spec fn in_range(self) -> bool {
        &&& LEAST_PITCH <= self.pitch <= MOST_PITCH
        &&& LEAST_ZOOM <= self.distance <= MOST_ZOOM
    }
}

impl Default for OrbitCamera {
    /// Thirty degrees off the axis, looking down at twenty, sixty metres back.
    fn default() -> (c: OrbitCamera)
        ensures
            c == (OrbitCamera { yaw: 523_599, pitch: 349_066, distance: 60_000_000 }),
            c.in_range(),
    {
        OrbitCamera { yaw: 523_599, pitch: 349_066, distance: 60_000_000 }
    }
}

/// A position on the screen, in thousandths of a pixel.
#[derive(Clone, Copy, Debug, PartialEq, Eq, Structural)]
pub struct Spot {
    pub x: i64,
    pub y: i64,
}

impl Spot {
    pub open spec fn valid(self) -> bool {
        -DRAG_LIMIT <= self.x <= DRAG_LIMIT && -DRAG_LIMIT <= self.y <= DRAG_LIMIT
    }

    /// The distance to `other`, rounded down.
    pub open spec fn gap(self, other: Spot) -> nat {
        floor_sqrt(
            ((self.x - other.x) * (self.x - other.x) + (self.y - other.y) * (self.y
                - other.y)) as nat,
        )
    }
}

/// A finger on the screen, now and in the frame before.
#[derive(Clone, Copy, Debug, PartialEq, Eq, Structural)]
pub struct Finger {
    pub now: Spot,
    pub before: Spot,
}

/// `v` held between `low` and `high`.
pub open spec fn held(v: int, low: int, high: int) -> int {
    if v < low {
        low
    } else if v > high {
        high
    } else {
        v
    }
}

/// How far the drags go together.
pub open spec fn drag_sum(drags: Seq<Spot>) -> (int, int)
    decreases drags.len(),
{
    if drags.len() == 0 {
        (0, 0)
    } else {
        let before = drag_sum(drags.drop_last());
        (before.0 + drags.last().x, before.1 + drags.last().y)
    }
}

/// The distance after the wheel's notches, each a factor in millionths.
pub open spec fn wheeled(distance: int, factors: Seq<u32>) -> int
    decreases factors.len(),
{
    if factors.len() == 0 {
        distance
    } else {
        held(
            (wheeled(distance, factors.drop_last()) * factors.last()) / 1_000_000,
            LEAST_ZOOM as int,
            MOST_ZOOM as int,
        )
    }
}

/// The distance after a pinch: it shrinks as the fingers spread. Fingers closer than a
/// pixel do not pinch.
pub open spec fn pinched(distance: int, a: Finger, b: Finger) -> int {
    let (now, before) = (a.now.gap(b.now) as int, a.before.gap(b.before) as int);
    if now > 1_000 && before > 1_000 {
        held((distance * before) / now, LEAST_ZOOM as int, MOST_ZOOM as int)
    } else {
        distance
    }
}

/// How far the camera is dragged: by the one finger, or by the mouse while its left button
/// is down. Two fingers pinch and do not drag.
pub open spec fn dragged(fingers: Seq<Finger>, left: bool, motion: Seq<Spot>) -> (int, int) {
    if fingers.len() >= 2 {
        (0, 0)
    } else if fingers.len() == 1 {
        (fingers[0].now.x - fingers[0].before.x, fingers[0].now.y - fingers[0].before.y)
    } else if left {
        drag_sum(motion)
    } else {
        (0, 0)
    }
}

/// The camera after a frame's gestures.
pub open spec fn orbited(
    camera: OrbitCamera,
    fingers: Seq<Finger>,
    left: bool,
    motion: Seq<Spot>,
    wheel: Seq<u32>,
) -> OrbitCamera {
    let drag = dragged(fingers, left, motion);
    let distance = if fingers.len() >= 2 {
        pinched(camera.distance as int, fingers[0], fingers[1])
    } else {
        camera.distance as int
    };
    OrbitCamera {
        yaw: held(camera.yaw - drag.0 * 5, -YAW_LIMIT, YAW_LIMIT as int) as i64,
        pitch: held(camera.pitch + drag.1 * 5, LEAST_PITCH as int, MOST_PITCH as int) as i64,
        distance: wheeled(distance, wheel) as u64,
    }
}

fn gap_between(a: &Spot, b: &Spot) -> (d: u64)
    requires
        a.valid(),
        b.valid(),
    ensures
        d == a.gap(*b),
        d <= 0x20_0000_0000,
{
    let (x, y): (i128, i128) = ((a.x - b.x) as i128, (a.y - b.y) as i128);
    proof {
        lemma_product_bound(x as int, x as int, 0x10_0000_0000, 0x10_0000_0000);
        lemma_product_bound(y as int, y as int, 0x10_0000_0000, 0x10_0000_0000);
        assert(x * x >= 0 && y * y >= 0) by (nonlinear_arith);
    }
    let n: u128 = (x * x + y * y) as u128;
    let d: u64 = integer_sqrt(n);
    proof {
        crate::geom::lemma_floor_sqrt_exists(n as nat);
        assert(d <= 0x20_0000_0000) by (nonlinear_arith)
            requires
                d * d <= n,
                n <= 0x200_0000_0000_0000_0000,
                d >= 0,
        ;
    }
    d
}

/// Moves the camera by a frame's gestures, unless the panel wants the pointer. Dragging
/// turns it around the body; scrolling and pinching move it closer and farther. `wheel`
/// has a factor in millionths for each scroll event.
pub fn orbit_input(
    camera: &mut OrbitCamera,
    panel_wants_pointer: bool,
    fingers: &[Finger],
    left: bool,
    motion: &[Spot],
    wheel: &[u32],
)
    requires
        old(camera).in_range(),
        -YAW_LIMIT <= old(camera).yaw <= YAW_LIMIT,
        motion.len() <= 0x1000,
        forall|i: int|
            0 <= i < fingers.len() ==> (#[trigger] fingers[i]).now.valid()
                && fingers[i].before.valid(),
        forall|i: int| 0 <= i < motion.len() ==> (#[trigger] motion[i]).valid(),
    ensures
        panel_wants_pointer ==> *final(camera) == *old(camera),
        !panel_wants_pointer ==> *final(camera) == orbited(
            *old(camera),
            fingers@,
            left,
            motion@,
            wheel@,
        ),
        final(camera).in_range(),
        -YAW_LIMIT <= final(camera).yaw <= YAW_LIMIT,
{
    if panel_wants_pointer {
        return;
    }
    let (mut dx, mut dy): (i64, i64) = (0, 0);
    let mut distance: u64 = camera.distance;
    if fingers.len() >= 2 {
        let (a, b): (Finger, Finger) = (fingers[0], fingers[1]);
        assert(fingers[0].now.valid() && fingers[1].now.valid());
        let now: u64 = gap_between(&a.now, &b.now);
        let before: u64 = gap_between(&a.before, &b.before);
        if now > 1_000 && before > 1_000 {
            proof {
                lemma_product_bound(
                    distance as int,
                    before as int,
                    MOST_ZOOM as int,
                    0x20_0000_0000,
                );
            }
            let d: u64 = distance * before / now;
            distance = if d < LEAST_ZOOM {
                LEAST_ZOOM
            } else if d > MOST_ZOOM {
                MOST_ZOOM
            } else {
                d
            };
        }
    } else if fingers.len() == 1 {
        let a: Finger = fingers[0];
        assert(fingers[0].now.valid());
        dx = a.now.x - a.before.x;
        dy = a.now.y - a.before.y;
    } else if left {
        let mut i: usize = 0;
        while i < motion.len()
            invariant
                i <= motion.len() <= 0x1000,
                forall|i: int| 0 <= i < motion.len() ==> (#[trigger] motion[i]).valid(),
                (dx as int, dy as int) == drag_sum(motion@.take(i as int)),
                -0x8_0000_0000 * i <= dx <= 0x8_0000_0000 * i,
                -0x8_0000_0000 * i <= dy <= 0x8_0000_0000 * i,
            decreases motion.len() - i,
        {
            assert(motion@.take(i + 1).drop_last() =~= motion@.take(i as int));
            assert(motion[i as int].valid());
            dx = dx + motion[i].x;
            dy = dy + motion[i].y;
            i = i + 1;
        }
        assert(motion@.take(motion.len() as int) =~= motion@);
    }
    let yaw: i64 = camera.yaw - dx * 5;
    camera.yaw =
    if yaw < -YAW_LIMIT {
        -YAW_LIMIT
    } else if yaw > YAW_LIMIT {
        YAW_LIMIT
    } else {
        yaw
    };
    let pitch: i64 = camera.pitch + dy * 5;
    camera.pitch =
    if pitch < LEAST_PITCH {
        LEAST_PITCH
    } else if pitch > MOST_PITCH {
        MOST_PITCH
    } else {
        pitch
    };
    let ghost start = distance as int;
    let mut i: usize = 0;
    while i < wheel.len()
        invariant
            i <= wheel.len(),
            distance == wheeled(start, wheel@.take(i as int)),
            LEAST_ZOOM <= distance <= MOST_ZOOM,
        decreases wheel.len() - i,
    {
        assert(wheel@.take(i + 1).drop_last() =~= wheel@.take(i as int));
        proof {
            lemma_product_bound(
                distance as int,
                wheel[i as int] as int,
                MOST_ZOOM as int,
                0xffff_ffff,
            );
        }
        let d: u64 = distance * wheel[i] as u64 / 1_000_000;
        distance = if d < LEAST_ZOOM {
            LEAST_ZOOM
        } else if d > MOST_ZOOM {
            MOST_ZOOM
        } else {
            d
        };
        i = i + 1;
    }
    assert(wheel@.take(wheel.len() as int) =~= wheel@);
    camera.distance = distance;
}

/// Where the camera looks: at the body, if there is one.
pub fn camera_target(body: Option<Point>) -> (p: Point)
    ensures
        p == match body {
            Some(at) => at,
            None => (Point { x: 0, y: 0, z: 0 }),
        },
{
    match body {
        Some(at) => at,
        None => Point::zero(),
    }
}

// ---- The links -----------------------------------------------------------------------

/// How many characters of `href` come before its query or fragment.
pub open spec fn base_length(href: Seq<char>, from: int) -> int
    decreases href.len() - from,
{
    if from >= href.len() || href[from] == '?' || href[from] == '#' {
        from
    } else {
        base_length(href, from + 1)
    }
}

/// How many of the first `n` characters of `href` its directory has: up to the last slash,
/// or all of them if there is none.
pub open spec fn directory_length(href: Seq<char>, n: int, k: int) -> int
    decreases k,
{
    if k <= 0 {
        n
    } else if href[k - 1] == '/' {
        k
    } else {
        directory_length(href, n, k - 1)
    }
}

/// The address of the page that explains the simulator, next to the page at `href`.
pub open spec fn info_address(href: Seq<char>) -> Seq<char> {
    let n = base_length(href, 0);
    href.take(directory_length(href, n, n)) + "buoyancy/info.html"@
}

/// The absolute address of the page that explains the simulator, resolved against the
/// address of the page that runs it. Works at the root of a site and below it.
pub fn info_url(href: &str) -> (url: String)
    ensures
        url@ == info_address(href@),
{
    let len: usize = href.unicode_len();
    let mut n: usize = 0;
    while n < len && href.get_char(n) != '?' && href.get_char(n) != '#'
        invariant
            len == href@.len(),
            n <= len,
            base_length(href@, 0) == base_length(href@, n as int),
        decreases len - n,
    {
        n = n + 1;
    }
    assert(base_length(href@, 0) == n);
    let mut k: usize = n;
    while k > 0 && href.get_char(k - 1) != '/'
        invariant
            len == href@.len(),
            k <= n <= len,
            directory_length(href@, n as int, n as int) == directory_length(
                href@,
                n as int,
                k as int,
            ),
        decreases k,
    {
        k = k - 1;
    }
    let end: usize = if k == 0 {
        n
    } else {
        k
    };
    assert(end == directory_length(href@, n as int, n as int));
    let mut url: String = String::from_str(href.substring_char(0, end));
    assert(url@ =~= href@.take(end as int));
    url.append("buoyancy/info.html");
    url
}

/// A query or fragment makes no difference to where the explanation is.
pub proof fn law_info_ignores_the_query(href: Seq<char>, query: Seq<char>)
    requires
        query.len() > 0,
        query[0] == '?' || query[0] == '#',
    ensures
        info_address(href + query) == info_address(href),
{
    let long = href + query;
    lemma_base_length(href, query, 0);
    let n = base_length(href, 0);
    lemma_base_bound(href, 0);
    lemma_directory_length(href, query, n, n);
    lemma_directory_bound(href, n, n);
    let d = directory_length(href, n, n);
    assert(long.take(d) =~= href.take(d));
}

proof fn lemma_base_length(href: Seq<char>, query: Seq<char>, from: int)
    requires
        query.len() > 0,
        query[0] == '?' || query[0] == '#',
        0 <= from <= href.len(),
    ensures
        base_length(href + query, from) == base_length(href, from),
    decreases href.len() - from,
{
    let long = href + query;
    if from < href.len() {
        assert(long[from] == href[from]);
        lemma_base_length(href, query, from + 1);
    } else {
        assert(long[from] == query[0]);
    }
}

proof fn lemma_base_bound(href: Seq<char>, from: int)
    requires
        0 <= from <= href.len(),
    ensures
        from <= base_length(href, from) <= href.len(),
    decreases href.len() - from,
{
    if from < href.len() {
        lemma_base_bound(href, from + 1);
    }
}

proof fn lemma_directory_length(href: Seq<char>, query: Seq<char>, n: int, k: int)
    requires
        0 <= k <= n <= href.len(),
    ensures
        directory_length(href + query, n, k) == directory_length(href, n, k),
    decreases k,
{
    if k > 0 {
        assert((href + query)[k - 1] == href[k - 1]);
        lemma_directory_length(href, query, n, k - 1);
    }
}

proof fn lemma_directory_bound(href: Seq<char>, n: int, k: int)
    requires
        0 <= k <= n,
    ensures
        0 <= directory_length(href, n, k) <= n,
    decreases k,
{
    if k > 0 {
        lemma_directory_bound(href, n, k - 1);
    }
}

/// The address of the simulator's source at the commit it was built from; at the default
/// branch where the commit is not known.
pub fn source_url(commit: Option<&str>) -> (url: String)
    ensures
        url@ == "https://github.com/samcarey/bad-spaceship/tree/"@ + (match commit {
            Some(c) => c@,
            None => "master"@,
        }) + "/buoyancy"@,
{
    let mut url: String = String::from_str("https://github.com/samcarey/bad-spaceship/tree/");
    match commit {
        Some(c) => url.append(c),
        None => url.append("master"),
    }
    url.append("/buoyancy");
    url
}

// ---- The panel -----------------------------------------------------------------------

/// What the user did to the panel in a frame. A value stands for a slider or box that was
/// moved, whether or not the panel shows it.
#[derive(Clone, Copy, Debug, PartialEq, Eq, Structural)]
pub struct PanelInput {
    pub reset: bool,
    pub density: Option<u64>,
    pub start_angle: Option<u32>,
    /// Whether the section of the body's measures is unfolded.
    pub cylinder_open: bool,
    pub r_top: Option<i64>,
    pub r_bottom: Option<i64>,
    pub length: Option<i64>,
    pub wall: Option<i64>,
    /// Whether the section of the method is unfolded.
    pub method_open: bool,
    pub method: Option<Method>,
    pub voxel_res: Option<u32>,
    pub hull_res: Option<u32>,
    pub drag_on: Option<bool>,
    pub drag_coeff: Option<u32>,
    pub slamming_on: Option<bool>,
    pub gamma_max: Option<u64>,
    pub pressure_drag_on: Option<bool>,
    pub pressure_drag_coeff: Option<u32>,
    /// Whether the button for the force arrows was clicked.
    pub vectors: bool,
}

/// What the panel shows, from top to bottom.
#[derive(Clone, Copy, Debug, PartialEq, Eq, Structural)]
pub enum Widget {
    Reset,
    WaterDensity,
    Density,
    StartAngle,
    CylinderHeader,
    RadiusTop,
    RadiusBottom,
    Length,
    Wall,
    MethodHeader,
    MethodChoice,
    GridDensity,
    HullResolution,
    Drag,
    DragCoeff,
    Slamming { enabled: bool },
    GammaMax,
    PressureDrag { enabled: bool },
    PressureDragCoeff,
}

/// A slider after the frame: where it was moved to, within its ends, or where it was.
pub open spec fn slid(moved: Option<int>, was: int, low: int, high: int) -> int {
    match moved {
        Some(v) => held(v, low, high),
        None => was,
    }
}

pub open spec fn boxed(moved: Option<bool>, was: bool) -> bool {
    match moved {
        Some(v) => v,
        None => was,
    }
}

pub open spec fn opt_u64(v: Option<u64>) -> Option<int> {
    match v {
        Some(x) => Some(x as int),
        None => None,
    }
}

pub open spec fn opt_u32(v: Option<u32>) -> Option<int> {
    match v {
        Some(x) => Some(x as int),
        None => None,
    }
}

pub open spec fn opt_i64(v: Option<i64>) -> Option<int> {
    match v {
        Some(x) => Some(x as int),
        None => None,
    }
}

/// The body's measures after the frame: its sliders move only while their section is
/// unfolded.
pub open spec fn shape_after(p: SimParams, i: PanelInput) -> Shape {
    if i.cylinder_open {
        Shape {
            r_top: slid(opt_i64(i.r_top), p.shape.r_top as int, 200_000, 2_500_000) as i64,
            r_bottom: slid(
                opt_i64(i.r_bottom),
                p.shape.r_bottom as int,
                200_000,
                2_500_000,
            ) as i64,
            length: slid(opt_i64(i.length), p.shape.length as int, 500_000, 6_400_000) as i64,
        }
    } else {
        p.shape
    }
}

/// The method after the frame.
pub open spec fn method_after(p: SimParams, i: PanelInput) -> Method {
    if i.method_open && i.method is Some {
        i.method->0
    } else {
        p.method
    }
}

/// Whether the models that need faces can be switched: only surface pressure has faces.
pub open spec fn per_face(p: SimParams, i: PanelInput) -> bool {
    i.method_open && method_after(p, i) is SurfacePressure
}

/// The settings after the frame. A widget that is not shown, or is greyed out, changes
/// nothing.
pub open spec fn params_after(p: SimParams, i: PanelInput) -> SimParams {
    let open = i.method_open;
    let method = method_after(p, i);
    let faces = per_face(p, i);
    let drag_on = if open {
        boxed(i.drag_on, p.drag_on)
    } else {
        p.drag_on
    };
    let slamming_on = if faces {
        boxed(i.slamming_on, p.slamming_on)
    } else {
        p.slamming_on
    };
    let pressure_drag_on = if faces {
        boxed(i.pressure_drag_on, p.pressure_drag_on)
    } else {
        p.pressure_drag_on
    };
    SimParams {
        density: slid(opt_u64(i.density), p.density as int, 100_000, 12_000_000) as u64,
        start_angle: slid(opt_u32(i.start_angle), p.start_angle as int, 0, 90_000_000) as u32,
        shape: shape_after(p, i),
        wall: if i.cylinder_open {
            slid(opt_i64(i.wall), p.wall as int, 1_000, 250_000) as i64
        } else {
            p.wall
        },
        method,
        voxel_res: if open && method is VoxelGrid {
            slid(opt_u32(i.voxel_res), p.voxel_res as int, 4, 32) as u32
        } else {
            p.voxel_res
        },
        hull_res: if open && !(method is VoxelGrid) {
            slid(opt_u32(i.hull_res), p.hull_res as int, 8, 64) as u32
        } else {
            p.hull_res
        },
        drag_on,
        drag_coeff: if open && drag_on {
            slid(opt_u32(i.drag_coeff), p.drag_coeff as int, 0, 3_000_000) as u32
        } else {
            p.drag_coeff
        },
        pressure_drag_on,
        pressure_drag_coeff: if faces && pressure_drag_on {
            slid(opt_u32(i.pressure_drag_coeff), p.pressure_drag_coeff as int, 0, 3_000_000) as u32
        } else {
            p.pressure_drag_coeff
        },
        slamming_on,
        gamma_max: if faces && slamming_on {
            slid(opt_u64(i.gamma_max), p.gamma_max as int, 5_000_000, 100_000_000) as u64
        } else {
            p.gamma_max
        },
    }
}

/// One widget, if it is shown.
pub open spec fn shown_if(shown: bool, w: Widget) -> Seq<Widget> {
    if shown {
        seq![w]
    } else {
        Seq::empty()
    }
}

/// The sliders of the body's measures.
pub open spec fn cylinder_widgets(i: PanelInput) -> Seq<Widget> {
    if i.cylinder_open {
        seq![Widget::RadiusTop, Widget::RadiusBottom, Widget::Length, Widget::Wall]
    } else {
        Seq::empty()
    }
}

/// The method's own widgets: its choice, the quality of the one selected, and the models
/// that can be added to it.
pub open spec fn method_widgets(after: SimParams, i: PanelInput) -> Seq<Widget> {
    let faces = after.method is SurfacePressure;
    if i.method_open {
        seq![
            Widget::MethodChoice,
            if after.method is VoxelGrid {
                Widget::GridDensity
            } else {
                Widget::HullResolution
            },
            Widget::Drag,
        ] + shown_if(after.drag_on, Widget::DragCoeff) + seq![Widget::Slamming { enabled: faces }]
            + shown_if(faces && after.slamming_on, Widget::GammaMax) + seq![
            Widget::PressureDrag { enabled: faces },
        ] + shown_if(faces && after.pressure_drag_on, Widget::PressureDragCoeff)
    } else {
        Seq::empty()
    }
}

/// What the panel shows in a frame that leaves the settings at `after`.
pub open spec fn panel_widgets(after: SimParams, i: PanelInput) -> Seq<Widget> {
    seq![Widget::Reset, Widget::WaterDensity, Widget::Density, Widget::StartAngle]
        + seq![Widget::CylinderHeader] + cylinder_widgets(i) + seq![Widget::MethodHeader]
        + method_widgets(after, i)
}

/// Whether every setting lies between the ends of its slider.
pub open spec fn in_slider_ranges(p: SimParams) -> bool {
    &&& 100_000 <= p.density <= 12_000_000
    &&& p.start_angle <= 90_000_000
    &&& 200_000 <= p.shape.r_top <= 2_500_000
    &&& 200_000 <= p.shape.r_bottom <= 2_500_000
    &&& 500_000 <= p.shape.length <= 6_400_000
    &&& 1_000 <= p.wall <= 250_000
    &&& 4 <= p.voxel_res <= 32
    &&& 8 <= p.hull_res <= 64
    &&& p.drag_coeff <= 3_000_000
    &&& p.pressure_drag_coeff <= 3_000_000
    &&& 5_000_000 <= p.gamma_max <= 100_000_000
}

fn slide_u64(moved: Option<u64>, was: u64, low: u64, high: u64) -> (v: u64)
    requires
        low <= high,
    ensures
        v == slid(opt_u64(moved), was as int, low as int, high as int),
{
    match moved {
        Some(v) => if v < low {
            low
        } else if v > high {
            high
        } else {
            v
        },
        None => was,
    }
}

fn slide_u32(moved: Option<u32>, was: u32, low: u32, high: u32) -> (v: u32)
    requires
        low <= high,
    ensures
        v == slid(opt_u32(moved), was as int, low as int, high as int),
{
    match moved {
        Some(v) => if v < low {
            low
        } else if v > high {
            high
        } else {
            v
        },
        None => was,
    }
}

fn slide_i64(moved: Option<i64>, was: i64, low: i64, high: i64) -> (v: i64)
    requires
        low <= high,
    ensures
        v == slid(opt_i64(moved), was as int, low as int, high as int),
{
    match moved {
        Some(v) => if v < low {
            low
        } else if v > high {
            high
        } else {
            v
        },
        None => was,
    }
}

fn check(moved: Option<bool>, was: bool) -> (v: bool)
    ensures
        v == boxed(moved, was),
{
    match moved {
        Some(v) => v,
        None => was,
    }
}

/// The settings of the method's section after the frame.
fn turn_method_knobs(params: &mut SimParams, input: &PanelInput)
    requires
        input.method_open,
    ensures
        *final(params) == (SimParams {
            density: old(params).density,
            start_angle: old(params).start_angle,
            shape: old(params).shape,
            wall: old(params).wall,
            ..params_after(*old(params), *input)
        }),
{
    if let Some(method) = input.method {
        params.method = method;
    }
    match params.method {
        Method::VoxelGrid => {
            params.voxel_res = slide_u32(input.voxel_res, params.voxel_res, 4, 32);
        },
        Method::SurfacePressure | Method::ClippedVolume => {
            params.hull_res = slide_u32(input.hull_res, params.hull_res, 8, 64);
        },
    }
    params.drag_on = check(input.drag_on, params.drag_on);
    if params.drag_on {
        params.drag_coeff = slide_u32(input.drag_coeff, params.drag_coeff, 0, 3_000_000);
    }
    if params.method == Method::SurfacePressure {
        params.slamming_on = check(input.slamming_on, params.slamming_on);
        if params.slamming_on {
            params.gamma_max =
            slide_u64(input.gamma_max, params.gamma_max, 5_000_000, 100_000_000);
        }
        params.pressure_drag_on = check(input.pressure_drag_on, params.pressure_drag_on);
        if params.pressure_drag_on {
            params.pressure_drag_coeff =
            slide_u32(input.pressure_drag_coeff, params.pressure_drag_coeff, 0, 3_000_000);
        }
    }
}

/// Adds the widgets of the method's section.
fn show_method(params: &SimParams, input: &PanelInput, widgets: &mut Vec<Widget>)
    ensures
        final(widgets)@ == old(widgets)@ + method_widgets(*params, *input),
{
    let per_face: bool = params.method == Method::SurfacePressure;
    if input.method_open {
        widgets.push(Widget::MethodChoice);
        match params.method {
            Method::VoxelGrid => {
                widgets.push(Widget::GridDensity);
            },
            Method::SurfacePressure | Method::ClippedVolume => {
                widgets.push(Widget::HullResolution);
            },
        }
        widgets.push(Widget::Drag);
        if params.drag_on {
            widgets.push(Widget::DragCoeff);
        }
        widgets.push(Widget::Slamming { enabled: per_face });
        if per_face && params.slamming_on {
            widgets.push(Widget::GammaMax);
        }
        widgets.push(Widget::PressureDrag { enabled: per_face });
        if per_face && params.pressure_drag_on {
            widgets.push(Widget::PressureDragCoeff);
        }
    }
    assert(widgets@ =~= old(widgets)@ + method_widgets(*params, *input));
}

/// One frame of the panel: what the user did takes effect, and what is shown follows from
/// the settings as they then are.
pub fn ui(
    params: &mut SimParams,
    reset: &mut bool,
    vectors_on: &mut bool,
    input: &PanelInput,
) -> (widgets: Vec<Widget>)
    ensures
        *final(params) == params_after(*old(params), *input),
        *final(reset) == (*old(reset) || input.reset),
        *final(vectors_on) == (*old(vectors_on) != input.vectors),
        widgets@ == panel_widgets(params_after(*old(params), *input), *input),
{
    let mut widgets: Vec<Widget> = Vec::new();
    widgets.push(Widget::Reset);
    if input.reset {
        *reset = true;
    }
    widgets.push(Widget::WaterDensity);
    widgets.push(Widget::Density);
    widgets.push(Widget::StartAngle);
    if input.method_open {
        turn_method_knobs(params, input);
    }
    params.density = slide_u64(input.density, params.density, 100_000, 12_000_000);
    params.start_angle = slide_u32(input.start_angle, params.start_angle, 0, 90_000_000);
    widgets.push(Widget::CylinderHeader);
    if input.cylinder_open {
        widgets.push(Widget::RadiusTop);
        params.shape.r_top = slide_i64(input.r_top, params.shape.r_top, 200_000, 2_500_000);
        widgets.push(Widget::RadiusBottom);
        params.shape.r_bottom =
        slide_i64(input.r_bottom, params.shape.r_bottom, 200_000, 2_500_000);
        widgets.push(Widget::Length);
        params.shape.length = slide_i64(input.length, params.shape.length, 500_000, 6_400_000);
        widgets.push(Widget::Wall);
        params.wall = slide_i64(input.wall, params.wall, 1_000, 250_000);
    }
    widgets.push(Widget::MethodHeader);
    assert(*params == params_after(*old(params), *input));
    let ghost head = seq![Widget::Reset, Widget::WaterDensity, Widget::Density, Widget::StartAngle]
        + seq![Widget::CylinderHeader] + cylinder_widgets(*input) + seq![Widget::MethodHeader];
    assert(widgets@ =~= head);
    show_method(params, input, &mut widgets);
    if input.vectors {
        *vectors_on = !*vectors_on;
    }
    widgets
}

/// Whatever the user does, the settings stay between the ends of their sliders, and so
/// describe a body that can be built.
pub proof fn law_panel_keeps_to_its_ranges(p: SimParams, i: PanelInput)
    requires
        in_slider_ranges(p),
    ensures
        in_slider_ranges(params_after(p, i)),
        params_after(p, i).valid(),
{
}

/// The models that need faces can only be switched while surface pressure is selected.
pub proof fn law_face_models_need_surface_pressure(p: SimParams, i: PanelInput)
    requires
        !(method_after(p, i) is SurfacePressure),
    ensures
        params_after(p, i).slamming_on == p.slamming_on,
        params_after(p, i).gamma_max == p.gamma_max,
        params_after(p, i).pressure_drag_on == p.pressure_drag_on,
        params_after(p, i).pressure_drag_coeff == p.pressure_drag_coeff,
{
}

/// Whether the panel's zoom has to be set: it is more than a hundredth off. In millionths.
pub fn zoom_is_off(zoom: u32) -> (off: bool)
    ensures
        off == (zoom > 1_310_000 || zoom < 1_290_000),
{
    zoom > 1_310_000 || zoom < 1_290_000
}

/// How far above the middle of the screen the scene has its centre, so that it lies midway
/// between the top of the screen and the top of the panel: in millionths of half the
/// screen's height. Heights are in thousandths of a point.
pub fn screen_lift(panel_height: u32, screen_height: u32) -> (lift: u64)
    ensures
        lift == (panel_height * 1_000_000) / (if screen_height < 1_000 {
            1_000int
        } else {
            screen_height as int
        }),
{
    let h: u64 = if screen_height < 1_000 {
        1_000
    } else {
        screen_height as u64
    };
    (panel_height as u64 * 1_000_000) / h
}

/// Where the readouts float: above the panel's top edge. In thousandths of a point.
pub fn above_panel(panel_height: u32) -> (y: u64)
    ensures
        y == panel_height + 6_000,
{
    panel_height as u64 + 6_000
}

/// The columns of a row with a label and a slider, in thousandths of a pixel: the space behind
/// the label, so that all sliders line up, and how wide the slider is.
pub fn labeled_slider(label_width: u64, available: u64) -> (r: (u64, u64))
    ensures
        r.0 == (if label_width < 120_000 {
            120_000 - label_width
        } else {
            0
        }),
        r.1 == (if available > 140_000 {
            available - 80_000
        } else {
            60_000
        }),
{
    let space: u64 = if label_width < 120_000 {
        120_000 - label_width
    } else {
        0
    };
    let width: u64 = if available > 140_000 {
        available - 80_000
    } else {
        60_000
    };
    (space, width)
}

} // verus!
