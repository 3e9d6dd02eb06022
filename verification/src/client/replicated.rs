//! How players, parts and joints of the server's world are drawn.

use crate::buoyancy::hydro::{rotate, Rotation};
use crate::client::colour::{rgb, Rgba};
use crate::geom::Point;
use crate::lists::{lemma_pick_none, lemma_pick_step, pick};
use vstd::prelude::*;

verus! {

/// The largest half side of a part.
pub const HALF_EXTENT_LIMIT: i64 = 0x1000_0000;

/// A box in its colour.
#[derive(Clone, Copy, Debug, PartialEq, Eq, Structural)]
pub struct ColouredBox {
    pub sides: Point,
    pub colour: Rgba,
    pub translation: Point,
}

/// The body of another player, and the nose by which one sees where it looks.
#[derive(Clone, Copy, Debug, PartialEq, Eq, Structural)]
pub struct AvatarVisual {
    pub entity: u64,
    pub body: ColouredBox,
    pub nose: ColouredBox,
}

/// What is drawn of a player.
pub open spec fn avatar_visual(entity: u64) -> AvatarVisual {
    AvatarVisual {
        entity,
        body: ColouredBox {
            sides: Point { x: 800_000, y: 1_200_000, z: 1_600_000 },
            colour: Rgba { r: 900_000, g: 350_000, b: 350_000, a: 1_000_000 },
            translation: Point { x: 0, y: 0, z: 0 },
        },
        nose: ColouredBox {
            sides: Point { x: 300_000, y: 300_000, z: 600_000 },
            colour: Rgba { r: 1_000_000, g: 850_000, b: 200_000, a: 1_000_000 },
            translation: Point { x: 0, y: 0, z: 900_000 },
        },
    }
}

fn visual_of(entity: u64) -> (v: AvatarVisual)
    ensures
        v == avatar_visual(entity),
{
    AvatarVisual {
        entity,
        body: ColouredBox {
            sides: Point { x: 800_000, y: 1_200_000, z: 1_600_000 },
            colour: rgb(900_000, 350_000, 350_000),
            translation: Point { x: 0, y: 0, z: 0 },
        },
        nose: ColouredBox {
            sides: Point { x: 300_000, y: 300_000, z: 600_000 },
            colour: rgb(1_000_000, 850_000, 200_000),
            translation: Point { x: 0, y: 0, z: 900_000 },
        },
    }
}

/// A copy of a player.
#[derive(Clone, Copy, Debug, PartialEq, Eq, Structural)]
pub struct PlayerCopy {
    pub entity: u64,
    pub interpolated: bool,
    pub has_visual: bool,
}

/// Whether a copy is to be drawn: that of another player, once. Our own is predicted, and
/// what the server confirmed stays invisible.
pub open spec fn is_new_player(p: PlayerCopy) -> bool {
    p.interpolated && !p.has_visual
}

/// A body for each other player that has none.
pub fn draw_replicated_players(players: &[PlayerCopy]) -> (drawn: Vec<AvatarVisual>)
    ensures
        drawn@ == pick(
            players@,
            |p: PlayerCopy| is_new_player(p),
            |p: PlayerCopy| avatar_visual(p.entity),
        ),
{
    let ghost p = |p: PlayerCopy| is_new_player(p);
    let ghost f = |p: PlayerCopy| avatar_visual(p.entity);
    let mut drawn: Vec<AvatarVisual> = Vec::new();
    let mut i: usize = 0;
    proof {
        lemma_pick_none(players@, p, f);
    }
    while i < players.len()
        invariant
            i <= players.len(),
            p == (|p: PlayerCopy| is_new_player(p)),
            f == (|p: PlayerCopy| avatar_visual(p.entity)),
            drawn@ == pick(players@.take(i as int), p, f),
        decreases players.len() - i,
    {
        proof {
            lemma_pick_step(players@, i as int, p, f);
        }
        if players[i].interpolated && !players[i].has_visual {
            drawn.push(visual_of(players[i].entity));
        }
        i = i + 1;
    }
    assert(players@.take(i as int) =~= players@);
    drawn
}

/// The angle about the vertical by which a player's body is turned, from the way that it
/// looks: against it.
pub fn face_replicated_players(facing: i64) -> (turn: i64)
    requires
        facing > i64::MIN,
    ensures
        turn == -facing,
{
    -facing
}

/// A copy of a part.
#[derive(Clone, Copy, Debug, PartialEq, Eq, Structural)]
pub struct PartCopy {
    pub entity: u64,
    pub half_extents: Point,
    pub predicted: bool,
    pub has_pose: bool,
    pub has_mesh: bool,
}

/// A part as it is drawn: it can be picked up, and its pose is smoothed between ticks.
#[derive(Clone, Copy, Debug, PartialEq, Eq, Structural)]
pub struct PartVisual {
    pub entity: u64,
    pub look: ColouredBox,
}

/// Whether a copy is to become a body: a predicted one whose pose has come, once.
pub open spec fn is_new_part(p: PartCopy) -> bool {
    p.predicted && p.has_pose && !p.has_mesh
}

/// What is drawn of a part: a box twice its half sides.
pub open spec fn part_visual(p: PartCopy) -> PartVisual {
    PartVisual {
        entity: p.entity,
        look: ColouredBox {
            sides: Point {
                x: (p.half_extents.x * 2) as i64,
                y: (p.half_extents.y * 2) as i64,
                z: (p.half_extents.z * 2) as i64,
            },
            colour: Rgba { r: 550_000, g: 600_000, b: 720_000, a: 1_000_000 },
            translation: Point { x: 0, y: 0, z: 0 },
        },
    }
}

/// A body and a box for each part that has none.
pub fn draw_replicated_parts(parts: &[PartCopy]) -> (drawn: Vec<PartVisual>)
    requires
        forall|i: int|
            0 <= i < parts@.len() ==> (#[trigger] parts@[i]).half_extents.within(
                HALF_EXTENT_LIMIT as int,
            ),
    ensures
        drawn@ == pick(parts@, |p: PartCopy| is_new_part(p), |p: PartCopy| part_visual(p)),
{
    let ghost p = |p: PartCopy| is_new_part(p);
    let ghost f = |p: PartCopy| part_visual(p);
    let mut drawn: Vec<PartVisual> = Vec::new();
    let mut i: usize = 0;
    proof {
        lemma_pick_none(parts@, p, f);
    }
    while i < parts.len()
        invariant
            i <= parts.len(),
            forall|k: int|
                0 <= k < parts@.len() ==> (#[trigger] parts@[k]).half_extents.within(
                    HALF_EXTENT_LIMIT as int,
                ),
            p == (|p: PartCopy| is_new_part(p)),
            f == (|p: PartCopy| part_visual(p)),
            drawn@ == pick(parts@.take(i as int), p, f),
        decreases parts.len() - i,
    {
        proof {
            lemma_pick_step(parts@, i as int, p, f);
        }
        let part: PartCopy = parts[i];
        assert(parts@[i as int].half_extents.within(HALF_EXTENT_LIMIT as int));
        if part.predicted && part.has_pose && !part.has_mesh {
            drawn.push(
                PartVisual {
                    entity: part.entity,
                    look: ColouredBox {
                        sides: Point {
                            x: part.half_extents.x * 2,
                            y: part.half_extents.y * 2,
                            z: part.half_extents.z * 2,
                        },
                        colour: rgb(550_000, 600_000, 720_000),
                        translation: Point { x: 0, y: 0, z: 0 },
                    },
                },
            );
        }
        i = i + 1;
    }
    assert(parts@.take(i as int) =~= parts@);
    drawn
}

/// The pose of a part.
#[derive(Clone, Copy, Debug, PartialEq, Eq, Structural)]
pub struct PartPose {
    pub position: Point,
    pub rotation: Rotation,
}

/// A joint as it is drawn: where it is, where it pins its first part, in that part's own
/// frame, and that part's pose, if the part is there.
#[derive(Clone, Copy, Debug, PartialEq, Eq, Structural)]
pub struct DrawnJoint {
    pub translation: Point,
    pub anchor: Point,
    pub body: Option<PartPose>,
}

impl DrawnJoint {
    pub open spec fn valid(self) -> bool {
        &&& self.anchor.is_local()
        &&& self.body matches Some(b) ==> b.rotation.valid() && b.position.is_local()
    }

    /// Where the joint is to be drawn.
    pub open spec fn place(self) -> Point {
        match self.body {
            Some(b) => {
                let r = b.rotation.of(self.anchor);
                Point {
                    x: (b.position.x + r.x) as i64,
                    y: (b.position.y + r.y) as i64,
                    z: (b.position.z + r.z) as i64,
                }
            },
            None => self.translation,
        }
    }
}

/// Draws every joint on its first part, and says which of them moved: those of an assembly at
/// rest are left alone.
pub fn position_replicated_joints(joints: &mut Vec<DrawnJoint>) -> (moved: Vec<bool>)
    requires
        forall|i: int| 0 <= i < old(joints)@.len() ==> (#[trigger] old(joints)@[i]).valid(),
    ensures
        final(joints)@.len() == old(joints)@.len(),
        forall|i: int|
            0 <= i < final(joints)@.len() ==> #[trigger] final(joints)@[i] == (DrawnJoint {
                translation: old(joints)@[i].place(),
                ..old(joints)@[i]
            }),
        moved@ == old(joints)@.map_values(|j: DrawnJoint| j.place() != j.translation),
{
    let ghost before = joints@;
    let mut moved: Vec<bool> = Vec::new();
    let mut i: usize = 0;
    while i < joints.len()
        invariant
            i <= joints@.len(),
            joints@.len() == before.len(),
            moved@.len() == i,
            forall|k: int| 0 <= k < before.len() ==> (#[trigger] before[k]).valid(),
            forall|k: int|
                0 <= k < i ==> #[trigger] joints@[k] == (DrawnJoint {
                    translation: before[k].place(),
                    ..before[k]
                }),
            forall|k: int| i <= k < before.len() ==> #[trigger] joints@[k] == before[k],
            forall|k: int|
                0 <= k < i ==> #[trigger] moved@[k] == (before[k].place() != before[k].translation),
        decreases joints@.len() - i,
    {
        let joint: DrawnJoint = joints[i];
        assert(before[i as int].valid());
        let mut place: Point = joint.translation;
        if let Some(body) = joint.body {
            let r: Point = rotate(&body.rotation, &joint.anchor);
            place = Point {
                x: body.position.x + r.x,
                y: body.position.y + r.y,
                z: body.position.z + r.z,
            };
        }
        assert(place == before[i as int].place());
        if place != joint.translation {
            joints.set(i, DrawnJoint { translation: place, ..joint });
        }
        moved.push(place != joint.translation);
        i = i + 1;
    }
    assert(moved@ =~= before.map_values(|j: DrawnJoint| j.place() != j.translation));
    moved
}

/// The law of the joints: once drawn in their places, none moves again while the parts rest.
pub proof fn law_joints_settle(j: DrawnJoint)
    ensures
        (DrawnJoint { translation: j.place(), ..j }).place() == j.place(),
{
}

/// Another player is drawn once; our own, and what the server only confirmed, never.
pub proof fn law_only_other_players_are_drawn(p: PlayerCopy)
    ensures
        p.interpolated && !p.has_visual ==> is_new_player(p),
        !p.interpolated ==> !is_new_player(p),
        p.has_visual ==> !is_new_player(p),
{
}

/// A part becomes a body once: when it is predicted and its pose has come.
pub proof fn law_a_part_waits_for_its_pose(p: PartCopy)
    ensures
        p.predicted && p.has_pose && !p.has_mesh ==> is_new_part(p),
        !p.predicted || !p.has_pose || p.has_mesh ==> !is_new_part(p),
{
}

/// A part's box is as far from its middle on either side as its half sides say, axis by axis,
/// and a player's nose sticks out forward of the body.
pub proof fn law_a_part_is_drawn_in_its_size(p: PartCopy, entity: u64)
    requires
        p.half_extents.within(HALF_EXTENT_LIMIT as int),
    ensures
        ({
            let v = part_visual(p);
            &&& v.entity == p.entity
            &&& v.look.sides.x - p.half_extents.x == p.half_extents.x
            &&& v.look.sides.y - p.half_extents.y == p.half_extents.y
            &&& v.look.sides.z - p.half_extents.z == p.half_extents.z
            &&& v.look.translation == (Point { x: 0, y: 0, z: 0 })
        }),
        ({
            let v = avatar_visual(entity);
            let (body, nose) = (v.body, v.nose);
            &&& v.entity == entity
            &&& 2 * nose.translation.z + nose.sides.z > 2 * body.translation.z + body.sides.z
            &&& 2 * nose.translation.z - nose.sides.z < 2 * body.translation.z + body.sides.z
            &&& nose.translation.x == body.translation.x && nose.translation.y
                == body.translation.y
        }),
{
}

/// A joint is drawn where its part's turn takes its anchor, off the part's position; a joint
/// whose part is gone stays where it is drawn.
pub proof fn law_a_joint_is_drawn_on_its_part(j: DrawnJoint, b: PartPose)
    requires
        j.body == Some(b),
        b.position.is_local(),
        b.rotation.of(j.anchor).within(0x4000_0000_0000_0000),
    ensures
        j.place().x - b.position.x == b.rotation.of(j.anchor).x,
        j.place().y - b.position.y == b.rotation.of(j.anchor).y,
        j.place().z - b.position.z == b.rotation.of(j.anchor).z,
        (DrawnJoint { body: None, ..j }).place() == j.translation,
{
}

} // verus!
