//! What is drawn over the world: the gizmo of the held part, the joints, the delete zone
//! and the arrow of the combined thrust.

use vstd::prelude::*;
use crate::client::colour::{rgb, Hsla, Rgba};
use crate::client::net::Orientation;
use crate::geom::{floor_div, integer_sqrt, Point};
use crate::geom::{floor_sqrt, lemma_product_bound};
use crate::lists::{lemma_pick_none, lemma_pick_step, pick};
use self::assembly::{largest_assembly, Joint};
use self::assembly::{component, is_main_assembly, jointed};
use self::gizmo_material::GizmoMaterial;

pub mod assembly;
pub mod gizmo_material;
pub mod normalization;

verus! {

/// Whether something is shown.
#[derive(Clone, Copy, Debug, PartialEq, Eq, Structural)]
pub enum Visibility {
    Visible,
    Hidden,
}

/// Shows or hides something.
pub fn set_visible(visibility: &mut Visibility, visible: bool)
    ensures
        *final(visibility) == if visible {
            Visibility::Visible
        } else {
            Visibility::Hidden
        },
{
    *visibility =
    if visible {
        Visibility::Visible
    } else {
        Visibility::Hidden
    };
}

// ---- The gizmo -----------------------------------------------------------------------

/// A held part: how it is to be turned, and the hold point that carries it.
#[derive(Clone, Copy, Debug, PartialEq, Eq, Structural)]
pub struct Held {
    pub orientation: Orientation,
    pub hold_point: u64,
}

/// A hold point and where it is.
#[derive(Clone, Copy, Debug, PartialEq, Eq, Structural)]
pub struct HoldPointAt {
    pub entity: u64,
    pub at: Point,
}

/// Where the gizmo stands and how it is turned.
#[derive(Clone, Copy, Debug, PartialEq, Eq, Structural)]
pub struct GizmoPose {
    pub at: Point,
    pub orientation: Orientation,
}

/// The place of a hold point, if it is among `points`; the first of its name.
pub open spec fn hold_point_of(points: Seq<HoldPointAt>, entity: u64) -> Option<Point>
    decreases points.len(),
{
    if points.len() == 0 {
        None
    } else if points[0].entity == entity {
        Some(points[0].at)
    } else {
        hold_point_of(points.skip(1), entity)
    }
}

/// Where the gizmo belongs. The part held here has it, if its hold point is known; in
/// multiplayer, where none is held here, it follows the part that the server drives, while
/// we hold one.
pub open spec fn gizmo_pose(
    held: Option<Held>,
    points: Seq<HoldPointAt>,
    multiplayer: bool,
    holding: Option<bool>,
    held_rotation: Option<Orientation>,
) -> Option<GizmoPose> {
    match held {
        Some(h) => match hold_point_of(points, h.hold_point) {
            Some(at) => Some(GizmoPose { at, orientation: h.orientation }),
            None => None,
        },
        None => if multiplayer && holding == Some(true) && points.len() > 0 && held_rotation is Some {
            Some(GizmoPose { at: points[0].at, orientation: held_rotation->0 })
        } else {
            None
        },
    }
}

fn find_hold_point(points: &[HoldPointAt], entity: u64) -> (at: Option<Point>)
    ensures
        at == hold_point_of(points@, entity),
{
    let mut i: usize = 0;
    assert(points@.skip(0) =~= points@);
    while i < points.len()
        invariant
            i <= points.len(),
            hold_point_of(points@, entity) == hold_point_of(points@.skip(i as int), entity),
        decreases points.len() - i,
    {
        assert(points@.skip(i as int).skip(1) =~= points@.skip(i + 1));
        if points[i].entity == entity {
            return Some(points[i].at);
        }
        i = i + 1;
    }
    None
}

/// Where the gizmo belongs; it and its pieces are shown if and only if it belongs
/// somewhere.
pub fn position_gizmo(
    held: Option<Held>,
    points: &[HoldPointAt],
    multiplayer: bool,
    holding: Option<bool>,
    held_rotation: Option<Orientation>,
    hub: &mut Visibility,
    pieces: &mut Vec<Visibility>,
) -> (pose: Option<GizmoPose>)
    ensures
        pose == gizmo_pose(held, points@, multiplayer, holding, held_rotation),
        *final(hub) == if pose is Some {
            Visibility::Visible
        } else {
            Visibility::Hidden
        },
        final(pieces)@.len() == old(pieces)@.len(),
        forall|i: int| 0 <= i < final(pieces)@.len() ==> #[trigger] final(pieces)@[i] == *final(hub),
{
    let pose: Option<GizmoPose> = match held {
        Some(h) => match find_hold_point(points, h.hold_point) {
            Some(at) => Some(GizmoPose { at, orientation: h.orientation }),
            None => None,
        },
        None => {
            let is_holding: bool = match holding {
                Some(h) => h,
                None => false,
            };
            if multiplayer && is_holding && points.len() > 0 {
                match held_rotation {
                    Some(orientation) => Some(GizmoPose { at: points[0].at, orientation }),
                    None => None,
                }
            } else {
                None
            }
        },
    };
    let shown: bool = pose.is_some();
    set_visible(hub, shown);
    let mut i: usize = 0;
    while i < pieces.len()
        invariant
            i <= pieces@.len(),
            pieces@.len() == old(pieces)@.len(),
            *hub == if shown {
                Visibility::Visible
            } else {
                Visibility::Hidden
            },
            forall|k: int| 0 <= k < i ==> #[trigger] pieces@[k] == *hub,
        decreases pieces.len() - i,
    {
        pieces.set(
            i,
            if shown {
                Visibility::Visible
            } else {
                Visibility::Hidden
            },
        );
        i = i + 1;
    }
    pose
}

/// The hub of the gizmo as it is spawned: hidden, and nowhere yet.
#[derive(Clone, Copy, Debug, PartialEq, Eq, Structural)]
pub struct TransformGizmoBundle {
    pub pose: Option<GizmoPose>,
    pub visibility: Visibility,
}

impl Default for TransformGizmoBundle {
    fn default() -> (b: TransformGizmoBundle)
        ensures
            b == (TransformGizmoBundle { pose: None, visibility: Visibility::Hidden }),
    {
        TransformGizmoBundle { pose: None, visibility: Visibility::Hidden }
    }
}

/// An axis of space.
#[derive(Clone, Copy, Debug, PartialEq, Eq, Structural)]
pub enum Axis {
    X,
    Y,
    Z,
}

/// A mesh of the gizmo: its shaft, or the cone at the end.
#[derive(Clone, Copy, Debug, PartialEq, Eq, Structural)]
pub enum GizmoMesh {
    /// A capsule of this radius and length, along y.
    Tail { radius: i64, length: i64 },
    /// A cone of this height and radius, along y.
    Cone { height: i64, radius: i64 },
}

/// Quarter turns about an axis.
#[derive(Clone, Copy, Debug, PartialEq, Eq, Structural)]
pub struct QuarterTurns {
    pub about: Axis,
    pub turns: i8,
}

/// A piece of the gizmo.
#[derive(Clone, Copy, Debug, PartialEq, Eq, Structural)]
pub struct GizmoPiece {
    pub mesh: GizmoMesh,
    /// The axis whose colour it has.
    pub axis: Axis,
    /// Whether it has the colour of a handle.
    pub handle: bool,
    pub turn: QuarterTurns,
    pub at: Point,
}

/// How far the gizmo's axes reach.
pub const AXIS_LENGTH: i64 = 1_500_000;

/// A point on `axis`, `v` from the middle.
pub open spec fn on_axis(axis: Axis, v: int) -> Point {
    match axis {
        Axis::X => Point { x: v as i64, y: 0, z: 0 },
        Axis::Y => Point { x: 0, y: v as i64, z: 0 },
        Axis::Z => Point { x: 0, y: 0, z: v as i64 },
    }
}

/// The shaft along `axis`: its middle is halfway out.
pub open spec fn tail_piece(axis: Axis, about: Axis) -> GizmoPiece {
    GizmoPiece {
        mesh: GizmoMesh::Tail { radius: 15_000, length: AXIS_LENGTH },
        axis,
        handle: false,
        turn: QuarterTurns { about, turns: 1 },
        at: on_axis(axis, AXIS_LENGTH / 2),
    }
}

/// The cone at the end of `axis`.
pub open spec fn cone_piece(axis: Axis, about: Axis, turns: int) -> GizmoPiece {
    GizmoPiece {
        mesh: GizmoMesh::Cone { height: 300_000, radius: 100_000 },
        axis,
        handle: true,
        turn: QuarterTurns { about, turns: turns as i8 },
        at: on_axis(axis, AXIS_LENGTH as int),
    }
}

/// The six pieces of the gizmo: a shaft along each axis and a cone at its end.
pub open spec fn gizmo_pieces() -> Seq<GizmoPiece> {
    seq![
        tail_piece(Axis::X, Axis::Z),
        tail_piece(Axis::Y, Axis::Y),
        tail_piece(Axis::Z, Axis::X),
        cone_piece(Axis::X, Axis::Z, -1),
        cone_piece(Axis::Y, Axis::Y, 0),
        cone_piece(Axis::Z, Axis::X, 1),
    ]
}

/// Builds the gizmo.
pub fn build_gizmo() -> (pieces: Vec<GizmoPiece>)
    ensures
        pieces@ == gizmo_pieces(),
{
    let tail: GizmoMesh = GizmoMesh::Tail { radius: 15_000, length: AXIS_LENGTH };
    let cone: GizmoMesh = GizmoMesh::Cone { height: 300_000, radius: 100_000 };
    let half: i64 = AXIS_LENGTH / 2;
    let mut pieces: Vec<GizmoPiece> = Vec::new();
    pieces.push(
        GizmoPiece {
            mesh: tail,
            axis: Axis::X,
            handle: false,
            turn: QuarterTurns { about: Axis::Z, turns: 1 },
            at: Point { x: half, y: 0, z: 0 },
        },
    );
    pieces.push(
        GizmoPiece {
            mesh: tail,
            axis: Axis::Y,
            handle: false,
            turn: QuarterTurns { about: Axis::Y, turns: 1 },
            at: Point { x: 0, y: half, z: 0 },
        },
    );
    pieces.push(
        GizmoPiece {
            mesh: tail,
            axis: Axis::Z,
            handle: false,
            turn: QuarterTurns { about: Axis::X, turns: 1 },
            at: Point { x: 0, y: 0, z: half },
        },
    );
    pieces.push(
        GizmoPiece {
            mesh: cone,
            axis: Axis::X,
            handle: true,
            turn: QuarterTurns { about: Axis::Z, turns: -1 },
            at: Point { x: AXIS_LENGTH, y: 0, z: 0 },
        },
    );
    pieces.push(
        GizmoPiece {
            mesh: cone,
            axis: Axis::Y,
            handle: true,
            turn: QuarterTurns { about: Axis::Y, turns: 0 },
            at: Point { x: 0, y: AXIS_LENGTH, z: 0 },
        },
    );
    pieces.push(
        GizmoPiece {
            mesh: cone,
            axis: Axis::Z,
            handle: true,
            turn: QuarterTurns { about: Axis::X, turns: 1 },
            at: Point { x: 0, y: 0, z: AXIS_LENGTH },
        },
    );
    assert(pieces@ =~= gizmo_pieces());
    pieces
}

/// A quarter turn takes one axis into another: where `turns` quarter turns about `about`
/// take the direction of y, with its sign.
pub open spec fn turned_y(turn: QuarterTurns) -> (Axis, int) {
    if turn.turns == 0 {
        (Axis::Y, 1)
    } else {
        match turn.about {
            Axis::X => (Axis::Z, turn.turns as int),
            Axis::Y => (Axis::Y, 1),
            Axis::Z => (Axis::X, -(turn.turns as int)),
        }
    }
}

/// Every shaft runs along its own axis, and every cone points outwards along it.
pub proof fn law_gizmo_pieces_follow_their_axes(i: int)
    requires
        0 <= i < 6,
    ensures
        turned_y(gizmo_pieces()[i].turn).0 == gizmo_pieces()[i].axis,
        gizmo_pieces()[i].handle ==> turned_y(gizmo_pieces()[i].turn).1 == 1,
{
}

/// The colour of a piece: red, green and blue for x, y and z; handles are opaque.
pub fn gizmo_colour(axis: Axis, handle: bool) -> (m: GizmoMaterial)
    ensures
        m.color == (Hsla {
            hue: match axis {
                Axis::X => 0u32,
                Axis::Y => 120u32,
                Axis::Z => 240u32,
            },
            saturation: 800_000,
            lightness: 500_000,
            alpha: if handle {
                1_000_000
            } else {
                800_000
            },
        }),
{
    let hue: u32 = match axis {
        Axis::X => 0,
        Axis::Y => 120,
        Axis::Z => 240,
    };
    let alpha: u32 = if handle {
        1_000_000
    } else {
        800_000
    };
    GizmoMaterial::from(Hsla { hue, saturation: 800_000, lightness: 500_000, alpha })
}

// ---- Joints --------------------------------------------------------------------------

/// What a drawn joint is.
#[derive(Clone, Copy, Debug, PartialEq, Eq, Structural)]
pub enum JointKind {
    /// One that could be made.
    Potential,
    Existing,
    /// One in the delete zone.
    Predelete,
}

/// The colour of a joint: blue for a candidate, green for a real one, red for one about to
/// be deleted.
pub fn joint_colour(kind: JointKind) -> (m: GizmoMaterial)
    ensures
        m.color == (Hsla {
            hue: match kind {
                JointKind::Potential => 240u32,
                JointKind::Existing => 120u32,
                JointKind::Predelete => 0u32,
            },
            saturation: 1_000_000,
            lightness: 500_000,
            alpha: 750_000,
        }),
{
    let hue: u32 = match kind {
        JointKind::Potential => 240,
        JointKind::Existing => 120,
        JointKind::Predelete => 0,
    };
    GizmoMaterial::from(Hsla { hue, saturation: 1_000_000, lightness: 500_000, alpha: 750_000 })
}

/// The sphere that a joint is shown by, in micrometres, and its colour in each state.
#[derive(Clone, Copy, Debug, PartialEq, Eq, Structural)]
pub struct JointAppearance {
    pub radius: i64,
    pub valid_material: GizmoMaterial,
    pub invalid_material: GizmoMaterial,
    pub predelete_material: GizmoMaterial,
}

/// How joints are shown: blue where one could be, green where one is, and red where one is
/// about to go.
pub fn initialize_joint_appearance() -> (a: JointAppearance)
    ensures
        a.radius == 100_000,
        a.valid_material.color == (Hsla {
            hue: 240,
            saturation: 1_000_000,
            lightness: 500_000,
            alpha: 750_000,
        }),
        a.invalid_material.color == (Hsla { hue: 120, ..a.valid_material.color }),
        a.predelete_material.color == (Hsla { hue: 0, ..a.valid_material.color }),
{
    JointAppearance {
        radius: 100_000,
        valid_material: joint_colour(JointKind::Potential),
        invalid_material: joint_colour(JointKind::Existing),
        predelete_material: joint_colour(JointKind::Predelete),
    }
}

/// What becomes of the spheres that show joints: the first ones are moved and shown, more
/// are spawned if they are too few, and the rest is hidden.
pub struct SpherePlan {
    pub moved: Vec<Point>,
    pub spawned: Vec<Point>,
    pub hidden: usize,
}

/// The joints that can be drawn.
pub open spec fn drawable(centres: Seq<Option<Point>>) -> Seq<Point> {
    pick(centres, |c: Option<Point>| c is Some, |c: Option<Point>| c->0)
}

/// How many spheres are used again.
pub open spec fn reused(drawn: int, pool: int) -> int {
    if drawn < pool {
        drawn
    } else {
        pool
    }
}

/// Shows joints at `centres` with the `pool` spheres that there are. A joint whose part is
/// gone has no centre and is not drawn.
pub fn display_joints(centres: &[Option<Point>], pool: usize) -> (plan: SpherePlan)
    ensures
        ({
            let drawn = drawable(centres@);
            let n = reused(drawn.len() as int, pool as int);
            &&& plan.moved@ == drawn.take(n)
            &&& plan.spawned@ == drawn.skip(n)
            &&& plan.hidden == pool - n
        }),
{
    let ghost p = |c: Option<Point>| c is Some;
    let ghost f = |c: Option<Point>| c->0;
    let mut moved: Vec<Point> = Vec::new();
    let mut spawned: Vec<Point> = Vec::new();
    let mut i: usize = 0;
    proof {
        lemma_pick_none(centres@, p, f);
    }
    while i < centres.len()
        invariant
            i <= centres.len(),
            p == (|c: Option<Point>| c is Some),
            f == (|c: Option<Point>| c->0),
            moved@ + spawned@ == pick(centres@.take(i as int), p, f),
            moved@.len() <= pool,
            spawned@.len() > 0 ==> moved@.len() == pool,
        decreases centres.len() - i,
    {
        proof {
            lemma_pick_step(centres@, i as int, p, f);
        }
        if let Some(c) = centres[i] {
            let ghost before = moved@ + spawned@;
            if moved.len() < pool {
                moved.push(c);
            } else {
                spawned.push(c);
            }
            assert(moved@ + spawned@ =~= before.push(c));
        }
        i = i + 1;
    }
    assert(centres@.take(centres.len() as int) =~= centres@);
    let ghost drawn = drawable(centres@);
    assert(drawn == moved@ + spawned@);
    let hidden: usize = pool - moved.len();
    proof {
        let n = reused(drawn.len() as int, pool as int);
        assert(n == moved@.len());
        assert(moved@ =~= drawn.take(n));
        assert(spawned@ =~= drawn.skip(n));
    }
    SpherePlan { moved, spawned, hidden }
}

/// Every drawable joint is shown by exactly one sphere, and every other sphere is hidden.
pub proof fn law_each_joint_has_one_sphere(centres: Seq<Option<Point>>, pool: nat)
    ensures
        ({
            let drawn = drawable(centres);
            let n = reused(drawn.len() as int, pool as int);
            &&& drawn.take(n) + drawn.skip(n) == drawn
            &&& 0 <= n <= pool
            &&& n < pool ==> drawn.skip(n).len() == 0
        }),
{
    let drawn = drawable(centres);
    let n = reused(drawn.len() as int, pool as int);
    assert(drawn.take(n) + drawn.skip(n) =~= drawn);
}

/// The hold point to give a delete zone: the first that has none yet. It starts hidden.
pub fn add_hold_point_delete_zone_visualization(without: &[u64]) -> (entity: Option<u64>)
    ensures
        entity == if without@.len() > 0 {
            Some(without@[0])
        } else {
            None
        },
{
    if without.len() > 0 {
        Some(without[0])
    } else {
        None
    }
}

/// A player and what it is doing.
#[derive(Clone, Copy, Debug, PartialEq, Eq, Structural)]
pub struct Handler {
    pub holding: bool,
    pub modifying: bool,
    /// Whether its hold point is there.
    pub has_hold_point: bool,
}

/// Shows the delete zone while the player is taking joints away with empty hands.
pub fn delete_zone_visibility(player: Option<Handler>, zone: &mut Visibility)
    ensures
        *final(zone) == match player {
            Some(p) => if !p.has_hold_point {
                *old(zone)
            } else if p.modifying && !p.holding {
                Visibility::Visible
            } else {
                Visibility::Hidden
            },
            None => *old(zone),
        },
{
    if let Some(p) = player {
        if p.has_hold_point {
            set_visible(zone, p.modifying && !p.holding);
        }
    }
}

// ---- The arrow of the combined thrust ------------------------------------------------

/// The height of the arrow's head.
pub const THRUST_ARROW_HEAD_HEIGHT: i64 = 500_000;

/// The most rockets that are added up.
pub const MAX_ROCKETS: usize = 0x10_0000;

/// A rocket: the point at which its thrust acts, and the direction of it in millionths.
#[derive(Clone, Copy, Debug, PartialEq, Eq, Structural)]
pub struct Rocket {
    pub entity: u64,
    pub point: Point,
    pub dir: Point,
}

impl Rocket {
    pub open spec fn valid(self) -> bool {
        self.point.is_world() && self.dir.within(2_000_000)
    }
}

/// The sum of the points and of the directions of the rockets in `members`, and how many
/// there are.
pub open spec fn thrust_sum(rockets: Seq<Rocket>, members: Seq<u64>) -> (
    (int, int, int),
    (int, int, int),
    int,
)
    decreases rockets.len(),
{
    if rockets.len() == 0 {
        ((0, 0, 0), (0, 0, 0), 0)
    } else {
        let (s, r) = (thrust_sum(rockets.drop_last(), members), rockets.last());
        if members.contains(r.entity) {
            (
                (s.0.0 + r.point.x, s.0.1 + r.point.y, s.0.2 + r.point.z),
                (s.1.0 + r.dir.x, s.1.1 + r.dir.y, s.1.2 + r.dir.z),
                s.2 + 1,
            )
        } else {
            s
        }
    }
}

/// The arrow: where it starts, its direction in millionths and its length.
#[derive(Clone, Copy, Debug, PartialEq, Eq, Structural)]
pub struct ThrustArrow {
    pub origin: Point,
    pub dir: Point,
    pub length: i64,
}

/// The arrow of an assembly: from the mean of the points at which its rockets push, in the
/// direction of their sum, and one character tall for one rocket's thrust. None without a
/// rocket, and none where they cancel out.
pub open spec fn arrow_of(
    rockets: Seq<Rocket>,
    members: Seq<u64>,
    height: int,
) -> Option<ThrustArrow> {
    let (at, push, count) = thrust_sum(rockets, members);
    let sum = Point { x: push.0 as i64, y: push.1 as i64, z: push.2 as i64 };
    if count == 0 || sum.direction() == (Point { x: 0, y: 0, z: 0 }) {
        None
    } else {
        Some(
            ThrustArrow {
                origin: Point {
                    x: (at.0 / count) as i64,
                    y: (at.1 / count) as i64,
                    z: (at.2 / count) as i64,
                },
                dir: sum.direction(),
                length: ((floor_sqrt(sum.len2() as nat) * height) / 1_000_000) as i64,
            },
        )
    }
}

/// The mean of `sum` over `count` coordinates.
fn mean_of(sum: i128, count: usize) -> (m: i64)
    requires
        0 < count <= MAX_ROCKETS,
        -0x800_0000_0000_0000 * count <= sum <= 0x800_0000_0000_0000 * count,
    ensures
        m == sum as int / count as int,
{
    proof {
        let c = count as int;
        assert(-0x800_0000_0000_0000 <= sum as int / c <= 0x800_0000_0000_0000) by (nonlinear_arith)
            requires
                -0x800_0000_0000_0000 * c <= sum <= 0x800_0000_0000_0000 * c,
                0 < c,
        ;
    }
    floor_div(sum, count as i128) as i64
}

/// The arrow of the rockets that belong to `members`. `height` is that of a character.
pub fn thrust_arrow(rockets: &[Rocket], members: &[u64], height: u32) -> (arrow: Option<ThrustArrow>)
    requires
        rockets.len() <= MAX_ROCKETS,
        forall|i: int| 0 <= i < rockets.len() ==> (#[trigger] rockets[i]).valid(),
    ensures
        arrow == arrow_of(rockets@, members@, height as int),
{
    let (mut x, mut y, mut z): (i128, i128, i128) = (0, 0, 0);
    let (mut dx, mut dy, mut dz): (i64, i64, i64) = (0, 0, 0);
    let mut count: usize = 0;
    let mut i: usize = 0;
    while i < rockets.len()
        invariant
            i <= rockets.len() <= MAX_ROCKETS,
            forall|i: int| 0 <= i < rockets.len() ==> (#[trigger] rockets[i]).valid(),
            thrust_sum(rockets@.take(i as int), members@) == (
                (x as int, y as int, z as int),
                (dx as int, dy as int, dz as int),
                count as int,
            ),
            count <= i,
            -0x800_0000_0000_0000 * count <= x <= 0x800_0000_0000_0000 * count,
            -0x800_0000_0000_0000 * count <= y <= 0x800_0000_0000_0000 * count,
            -0x800_0000_0000_0000 * count <= z <= 0x800_0000_0000_0000 * count,
            -2_000_000 * count <= dx <= 2_000_000 * count,
            -2_000_000 * count <= dy <= 2_000_000 * count,
            -2_000_000 * count <= dz <= 2_000_000 * count,
        decreases rockets.len() - i,
    {
        assert(rockets@.take(i + 1).drop_last() =~= rockets@.take(i as int));
        let r: Rocket = rockets[i];
        assert(rockets[i as int].valid());
        if crate::lists::contains(members, r.entity) {
            x = x + r.point.x as i128;
            y = y + r.point.y as i128;
            z = z + r.point.z as i128;
            dx = dx + r.dir.x;
            dy = dy + r.dir.y;
            dz = dz + r.dir.z;
            count = count + 1;
        }
        i = i + 1;
    }
    assert(rockets@.take(rockets.len() as int) =~= rockets@);
    if count == 0 {
        return None;
    }
    let sum: Point = Point { x: dx, y: dy, z: dz };
    let dir: Point = sum.direction_or_zero();
    if dir.x == 0 && dir.y == 0 && dir.z == 0 {
        return None;
    }
    let origin: Point = Point { x: mean_of(x, count), y: mean_of(y, count), z: mean_of(z, count) };
    let strength: u64 = integer_sqrt(sum.length_squared());
    proof {
        crate::geom::lemma_floor_sqrt_exists(sum.len2() as nat);
        lemma_sum_is_short(sum, strength as int);
        lemma_product_bound(strength as int, height as int, 0x800_0000_0000, 0xffff_ffff);
        assert(0 <= strength * height) by (nonlinear_arith)
            requires
                0 <= strength,
                0 <= height,
        ;
    }
    let length: i128 = floor_div(strength as i128 * height as i128, 1_000_000);
    Some(ThrustArrow { origin, dir, length: length as i64 })
}

/// A sum of directions is no longer than it can be.
proof fn lemma_sum_is_short(p: Point, r: int)
    requires
        p.within(0x400_0000_0000),
        r * r <= p.len2(),
        0 <= r,
    ensures
        r <= 0x800_0000_0000,
{
    let (x, y, z) = (p.x as int, p.y as int, p.z as int);
    lemma_product_bound(x, x, 0x400_0000_0000, 0x400_0000_0000);
    lemma_product_bound(y, y, 0x400_0000_0000, 0x400_0000_0000);
    lemma_product_bound(z, z, 0x400_0000_0000, 0x400_0000_0000);
    assert(r <= 0x800_0000_0000) by (nonlinear_arith)
        requires
            r * r <= 3 * (0x400_0000_0000 * 0x400_0000_0000),
            0 <= r,
    ;
}

/// The arrow of the main assembly, in single player. In multiplayer there are no rockets
/// of our own. Where several assemblies are largest, it is one of theirs.
pub fn update_thrust_arrow(
    multiplayer: bool,
    rockets: &[Rocket],
    joints: &[Joint],
    height: u32,
) -> (arrow: Option<ThrustArrow>)
    requires
        rockets.len() <= MAX_ROCKETS,
        forall|i: int| 0 <= i < rockets.len() ==> (#[trigger] rockets[i]).valid(),
        joints.len() < usize::MAX / 2,
    ensures
        multiplayer ==> arrow is None,
        !multiplayer ==> {
            ||| exists|members: Seq<u64>| #[trigger]
                is_main_assembly(joints@, members) && arrow == arrow_of(
                    rockets@,
                    members,
                    height as int,
                )
            ||| arrow is None && forall|e: u64| #[trigger]
                jointed(joints@, e) ==> component(joints@, e).len() < 2
        },
{
    if multiplayer {
        return None;
    }
    match largest_assembly(joints) {
        None => None,
        Some(members) => {
            let arrow: Option<ThrustArrow> = thrust_arrow(rockets, &members, height);
            assert(is_main_assembly(joints@, members@));
            arrow
        },
    }
}

/// The length of the arrow's shaft: the head takes the rest, so that both together are as
/// long as the arrow.
pub fn shaft_length(length: i64) -> (l: i64)
    ensures
        l == if length > THRUST_ARROW_HEAD_HEIGHT {
            length - THRUST_ARROW_HEAD_HEIGHT
        } else {
            0
        },
{
    if length > THRUST_ARROW_HEAD_HEIGHT {
        length - THRUST_ARROW_HEAD_HEIGHT
    } else {
        0
    }
}

/// The arrow as it is built: a shaft of unit height, which is stretched to the thrust, and a
/// head that keeps its size. Both are hidden at first.
#[derive(Clone, Copy, Debug, PartialEq, Eq, Structural)]
pub struct ArrowParts {
    pub shaft_radius: i64,
    pub shaft_height: i64,
    pub head_radius: i64,
    pub head_height: i64,
    pub colour: Rgba,
    pub visibility: Visibility,
}

/// The arrow's parts, in yellow.
pub fn build_thrust_arrow() -> (a: ArrowParts)
    ensures
        a == (ArrowParts {
            shaft_radius: 100_000,
            shaft_height: 1_000_000,
            head_radius: 250_000,
            head_height: THRUST_ARROW_HEAD_HEIGHT,
            colour: Rgba { r: 1_000_000, g: 850_000, b: 100_000, a: 1_000_000 },
            visibility: Visibility::Hidden,
        }),
{
    ArrowParts {
        shaft_radius: 100_000,
        shaft_height: 1_000_000,
        head_radius: 250_000,
        head_height: THRUST_ARROW_HEAD_HEIGHT,
        colour: rgb(1_000_000, 850_000, 100_000),
        visibility: Visibility::Hidden,
    }
}

/// The place of a hold point is that of the first of its name, and one of no such name has
/// none.
pub proof fn law_a_hold_point_is_found(points: Seq<HoldPointAt>, entity: u64, k: int)
    requires
        0 <= k <= points.len(),
        forall|i: int| 0 <= i < k ==> (#[trigger] points[i]).entity != entity,
        k < points.len() ==> points[k].entity == entity,
    ensures
        hold_point_of(points, entity) == if k < points.len() {
            Some(points[k].at)
        } else {
            None
        },
    decreases points.len(),
{
    if k > 0 {
        let rest = points.skip(1);
        assert forall|i: int| 0 <= i < k - 1 implies (#[trigger] rest[i]).entity != entity by {
            assert(rest[i] == points[i + 1]);
        }
        if k < points.len() {
            assert(rest[k - 1] == points[k]);
        }
        assert(points[0].entity != entity);
        law_a_hold_point_is_found(rest, entity, k - 1);
    }
}

/// The gizmo stands at the hold point of the part that is held here and turns as the part is
/// to be turned. While the server drives the part that we hold, it stands at our own hold
/// point and turns as the server says.
pub proof fn law_the_gizmo_shows_what_is_held(
    h: Held,
    points: Seq<HoldPointAt>,
    multiplayer: bool,
    holding: Option<bool>,
    held_rotation: Option<Orientation>,
    o: Orientation,
)
    requires
        points.len() > 0,
        points[0].entity == h.hold_point,
    ensures
        gizmo_pose(Some(h), points, multiplayer, holding, held_rotation) == Some(
            GizmoPose { at: points[0].at, orientation: h.orientation },
        ),
        gizmo_pose(None, points, true, Some(true), Some(o)) == Some(
            GizmoPose { at: points[0].at, orientation: o },
        ),
        gizmo_pose(None, points, false, holding, held_rotation) is None,
        holding != Some(true) ==> gizmo_pose(None, points, multiplayer, holding, held_rotation) is None,
        gizmo_pose(None, points, multiplayer, holding, None) is None,
{
}

/// Every shaft reaches from the middle to a metre and a half out along its own axis, and the
/// cone of that axis sits at its end.
pub proof fn law_the_gizmo_reaches_along_its_axes(i: int)
    requires
        0 <= i < 3,
    ensures
        ({
            let (tail, cone) = (gizmo_pieces()[i], gizmo_pieces()[i + 3]);
            &&& gizmo_pieces().len() == 6
            &&& tail.axis == cone.axis
            &&& !tail.handle && cone.handle
            &&& tail.at.x + tail.at.x == cone.at.x
            &&& tail.at.y + tail.at.y == cone.at.y
            &&& tail.at.z + tail.at.z == cone.at.z
            &&& cone.at.x + cone.at.y + cone.at.z == 1_500_000
            &&& cone.axis == Axis::X ==> cone.at.x == 1_500_000 && cone.at.y == 0
            &&& cone.axis == Axis::Y ==> cone.at.y == 1_500_000 && cone.at.z == 0
            &&& cone.axis == Axis::Z ==> cone.at.z == 1_500_000 && cone.at.x == 0
            &&& tail.mesh matches GizmoMesh::Tail { radius, length } && length == 1_500_000
                && radius == 15_000
            &&& cone.mesh matches GizmoMesh::Cone { height, radius } && height == 300_000
                && radius == 100_000
        }),
        gizmo_pieces()[0].axis == Axis::X,
        gizmo_pieces()[1].axis == Axis::Y,
        gizmo_pieces()[2].axis == Axis::Z,
{
}

/// A sphere is used again wherever there is one, and only for a joint that is drawn.
pub proof fn law_spheres_are_used_again(drawn: int, pool: int)
    requires
        0 <= drawn,
        0 <= pool,
    ensures
        reused(drawn, pool) <= drawn,
        reused(drawn, pool) <= pool,
        reused(drawn, pool) == drawn || reused(drawn, pool) == pool,
{
}

/// A joint with a centre is drawn at its centre, in turn, and one without is not.
pub proof fn law_joints_are_drawn_where_they_are(centres: Seq<Option<Point>>, next: Point)
    ensures
        drawable(Seq::empty()) == Seq::<Point>::empty(),
        drawable(centres.push(Some(next))) == drawable(centres).push(next),
        drawable(centres.push(None)) == drawable(centres),
{
    let n = centres.len() as int;
    let (p, f) = (|c: Option<Point>| c is Some, |c: Option<Point>| c->0);
    let (more, gap) = (centres.push(Some(next)), centres.push(None));
    lemma_pick_none::<Option<Point>, Point>(Seq::empty(), p, f);
    lemma_pick_step(more, n, p, f);
    lemma_pick_step(gap, n, p, f);
    assert(more.take(n) == centres && more.take(n + 1) == more);
    assert(gap.take(n) == centres && gap.take(n + 1) == gap);
    assert(Seq::<Option<Point>>::empty().take(0) == Seq::<Option<Point>>::empty());
}

/// One more rocket of the assembly adds its point, axis by axis, and its direction, axis by
/// axis; one of another assembly adds nothing.
pub proof fn law_rockets_add_up(rockets: Seq<Rocket>, r: Rocket, members: Seq<u64>)
    ensures
        ({
            let (before, after) = (
                thrust_sum(rockets, members),
                thrust_sum(rockets.push(r), members),
            );
            &&& members.contains(r.entity) ==> {
                &&& after.0.0 - before.0.0 == r.point.x
                &&& after.0.1 - before.0.1 == r.point.y
                &&& after.0.2 - before.0.2 == r.point.z
                &&& after.1.0 - before.1.0 == r.dir.x
                &&& after.1.1 - before.1.1 == r.dir.y
                &&& after.1.2 - before.1.2 == r.dir.z
                &&& after.2 - before.2 == 1
            }
            &&& !members.contains(r.entity) ==> after == before
        }),
        thrust_sum(Seq::empty(), members) == ((0int, 0int, 0int), (0int, 0int, 0int), 0int),
{
    assert(rockets.push(r).drop_last() == rockets);
}

/// The arrow of one rocket starts where the rocket pushes and points where it pushes; a
/// rocket at full thrust is drawn as tall as a character.
pub proof fn law_a_lone_rocket_has_its_own_arrow(
    r: Rocket,
    stray: u64,
    members: Seq<u64>,
    height: u32,
)
    requires
        r.valid(),
        members.contains(r.entity),
        r.dir.direction() != (Point { x: 0, y: 0, z: 0 }),
    ensures
        ({
            let arrow = arrow_of(seq![r], members, height as int);
            &&& arrow is Some
            &&& arrow->0.origin == r.point
            &&& arrow->0.dir == r.dir.direction()
            &&& r.dir.len2() == 1_000_000_000_000 ==> arrow->0.length == height
        }),
        !members.contains(stray) ==> arrow_of(
            seq![Rocket { entity: stray, ..r }],
            members,
            height as int,
        ) is None,
{
    law_rockets_add_up(Seq::empty(), r, members);
    assert(Seq::<Rocket>::empty().push(r) == seq![r]);
    let other = Rocket { entity: stray, ..r };
    law_rockets_add_up(Seq::empty(), other, members);
    assert(Seq::<Rocket>::empty().push(other) == seq![other]);
    let sum = Point { x: r.dir.x, y: r.dir.y, z: r.dir.z };
    assert(sum == r.dir);
    if r.dir.len2() == 1_000_000_000_000 {
        assert(1_000_001nat * 1_000_001nat == 1_000_002_000_001nat) by (nonlinear_arith);
        assert(crate::geom::is_floor_sqrt(1_000_000, 1_000_000_000_000));
        crate::geom::lemma_floor_sqrt_unique(1_000_000, 1_000_000_000_000);
        assert(sum.len2() as nat == 1_000_000_000_000nat);
        let root = floor_sqrt(sum.len2() as nat);
        assert(root == 1_000_000nat);
        assert(root * (height as int) == 1_000_000 * height) by (nonlinear_arith)
            requires
                root == 1_000_000,
        ;
    }
    let s = thrust_sum(seq![r], members);
    assert(s.2 == 1 && s.0 == (r.point.x as int, r.point.y as int, r.point.z as int));
    assert(s.1 == (r.dir.x as int, r.dir.y as int, r.dir.z as int));
    assert(s.0.0 / s.2 == r.point.x && s.0.1 / s.2 == r.point.y && s.0.2 / s.2 == r.point.z);
}

/// The arrow starts at the mean of the points at which the rockets push, to the micrometre,
/// points along the sum of their thrusts and is as long as that sum, a character for each
/// rocket's worth.
pub proof fn law_the_arrow_is_the_combined_thrust(
    rockets: Seq<Rocket>,
    members: Seq<u64>,
    height: u32,
    m: int,
)
    requires
        ({
            let s = thrust_sum(rockets, members);
            &&& 0 < s.2
            &&& -0x4000_0000_0000_0000 * s.2 <= s.0.0 <= 0x4000_0000_0000_0000 * s.2
            &&& -0x4000_0000_0000_0000 * s.2 <= s.0.1 <= 0x4000_0000_0000_0000 * s.2
            &&& -0x4000_0000_0000_0000 * s.2 <= s.0.2 <= 0x4000_0000_0000_0000 * s.2
            &&& -0x200_0000_0000 <= s.1.0 <= 0x200_0000_0000
            &&& -0x200_0000_0000 <= s.1.1 <= 0x200_0000_0000
            &&& -0x200_0000_0000 <= s.1.2 <= 0x200_0000_0000
            &&& 0 <= m <= 0x400_0000_0000
            &&& m * m <= s.1.0 * s.1.0 + s.1.1 * s.1.1 + s.1.2 * s.1.2 < (m + 1) * (m + 1)
        }),
        arrow_of(rockets, members, height as int) is Some,
    ensures
        ({
            let s = thrust_sum(rockets, members);
            let arrow = arrow_of(rockets, members, height as int)->0;
            &&& s.2 * arrow.origin.x <= s.0.0 < s.2 * arrow.origin.x + s.2
            &&& s.2 * arrow.origin.y <= s.0.1 < s.2 * arrow.origin.y + s.2
            &&& s.2 * arrow.origin.z <= s.0.2 < s.2 * arrow.origin.z + s.2
            &&& arrow.dir == (Point {
                x: s.1.0 as i64,
                y: s.1.1 as i64,
                z: s.1.2 as i64,
            }).direction()
            &&& 1_000_000 * arrow.length <= m * height < 1_000_000 * arrow.length + 1_000_000
        }),
{
    let s = thrust_sum(rockets, members);
    lemma_mean_axis(s.0.0, s.2);
    lemma_mean_axis(s.0.1, s.2);
    lemma_mean_axis(s.0.2, s.2);
    let (x, y, z) = (s.1.0, s.1.1, s.1.2);
    assert(x * x >= 0 && y * y >= 0 && z * z >= 0) by (nonlinear_arith);
    crate::geom::lemma_floor_sqrt_unique(m as nat, (x * x + y * y + z * z) as nat);
    let h = height as int;
    assert(0 <= m * h <= 0x400_0000_0000 * 0xffff_ffff) by (nonlinear_arith)
        requires
            0 <= m <= 0x400_0000_0000,
            0 <= h <= 0xffff_ffff,
    ;
}

proof fn lemma_mean_axis(sum: int, n: int)
    requires
        0 < n,
        -0x4000_0000_0000_0000 * n <= sum <= 0x4000_0000_0000_0000 * n,
    ensures
        n * (sum / n) <= sum < n * (sum / n) + n,
        -0x4000_0000_0000_0001 <= sum / n <= 0x4000_0000_0000_0000,
{
    let q = sum / n;
    vstd::arithmetic::div_mod::lemma_fundamental_div_mod(sum, n);
    vstd::arithmetic::div_mod::lemma_mod_bound(sum, n);
    assert(q <= 0x4000_0000_0000_0000) by (nonlinear_arith)
        requires
            n * q <= sum,
            sum <= 0x4000_0000_0000_0000 * n,
            0 < n,
    ;
    assert(q >= -0x4000_0000_0000_0001) by (nonlinear_arith)
        requires
            sum < n * q + n,
            -0x4000_0000_0000_0000 * n <= sum,
            0 < n,
    ;
}

} // verus!
