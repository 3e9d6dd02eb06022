//! The asteroid field of a single player, who has no server to run one.

use vstd::prelude::*;
use crate::geom::{floor_div, Point};
use crate::lists::{contains, lemma_pick_none, lemma_pick_step, pick};

verus! {

/// The most parts that are averaged.
pub const MAX_PARTS: usize = 0x1_0000;

/// A part of the ship: where it is, and how fast; nothing is known of some speeds.
#[derive(Clone, Copy, Debug, PartialEq, Eq, Structural)]
pub struct ShipPart {
    pub entity: u64,
    pub at: Point,
    pub velocity: Option<Point>,
}

impl ShipPart {
    pub open spec fn valid(self) -> bool {
        self.at.is_world() && (self.velocity matches Some(v) ==> v.is_world())
    }

    /// The speed, or rest where it is not known.
    pub open spec fn speed(self) -> Point {
        match self.velocity {
            Some(v) => v,
            None => Point { x: 0, y: 0, z: 0 },
        }
    }
}

/// A rock of the field, and whether it has gone past the ship.
#[derive(Clone, Copy, Debug, PartialEq, Eq, Structural)]
pub struct FieldRock {
    pub entity: u64,
    pub spent: bool,
}

/// Roughly where the ship is, and how fast.
#[derive(Clone, Copy, Debug, PartialEq, Eq, Structural)]
pub struct ShipMean {
    pub centre: Point,
    pub velocity: Point,
}

/// The sums of the places and of the speeds of the parts in `members`, and how many there
/// are.
pub open spec fn ship_sum(parts: Seq<ShipPart>, members: Seq<u64>) -> (
    (int, int, int),
    (int, int, int),
    int,
)
    decreases parts.len(),
{
    if parts.len() == 0 {
        ((0, 0, 0), (0, 0, 0), 0)
    } else {
        let (s, p) = (ship_sum(parts.drop_last(), members), parts.last());
        if members.contains(p.entity) {
            (
                (s.0.0 + p.at.x, s.0.1 + p.at.y, s.0.2 + p.at.z),
                (s.1.0 + p.speed().x, s.1.1 + p.speed().y, s.1.2 + p.speed().z),
                s.2 + 1,
            )
        } else {
            s
        }
    }
}

/// The mean place and speed of the parts in `members`; none without a part. Unweighted, so
/// that no heavy part drags it off when a hit breaks the ship up.
pub open spec fn ship_mean(parts: Seq<ShipPart>, members: Seq<u64>) -> Option<ShipMean> {
    let (at, v, n) = ship_sum(parts, members);
    if n == 0 {
        None
    } else {
        Some(
            ShipMean {
                centre: Point { x: (at.0 / n) as i64, y: (at.1 / n) as i64, z: (at.2 / n) as i64 },
                velocity: Point { x: (v.0 / n) as i64, y: (v.1 / n) as i64, z: (v.2 / n) as i64 },
            },
        )
    }
}

fn mean_axis(sum: i128, n: usize) -> (m: i64)
    requires
        0 < n <= MAX_PARTS,
        -0x800_0000_0000_0000 * n <= sum <= 0x800_0000_0000_0000 * n,
    ensures
        m == sum as int / n as int,
{
    proof {
        let d = n as int;
        assert(-0x800_0000_0000_0000 <= sum as int / d <= 0x800_0000_0000_0000) by (nonlinear_arith)
            requires
                -0x800_0000_0000_0000 * d <= sum <= 0x800_0000_0000_0000 * d,
                0 < d,
        ;
    }
    floor_div(sum, n as i128) as i64
}

/// The mean place and speed of the ship.
pub fn ship_centre(parts: &[ShipPart], members: &[u64]) -> (mean: Option<ShipMean>)
    requires
        parts.len() <= MAX_PARTS,
        forall|i: int| 0 <= i < parts.len() ==> (#[trigger] parts[i]).valid(),
    ensures
        mean == ship_mean(parts@, members@),
{
    let (mut x, mut y, mut z): (i128, i128, i128) = (0, 0, 0);
    let (mut vx, mut vy, mut vz): (i128, i128, i128) = (0, 0, 0);
    let mut n: usize = 0;
    let mut i: usize = 0;
    while i < parts.len()
        invariant
            i <= parts.len() <= MAX_PARTS,
            forall|i: int| 0 <= i < parts.len() ==> (#[trigger] parts[i]).valid(),
            n <= i,
            ship_sum(parts@.take(i as int), members@) == (
                (x as int, y as int, z as int),
                (vx as int, vy as int, vz as int),
                n as int,
            ),
            -0x800_0000_0000_0000 * n <= x <= 0x800_0000_0000_0000 * n,
            -0x800_0000_0000_0000 * n <= y <= 0x800_0000_0000_0000 * n,
            -0x800_0000_0000_0000 * n <= z <= 0x800_0000_0000_0000 * n,
            -0x800_0000_0000_0000 * n <= vx <= 0x800_0000_0000_0000 * n,
            -0x800_0000_0000_0000 * n <= vy <= 0x800_0000_0000_0000 * n,
            -0x800_0000_0000_0000 * n <= vz <= 0x800_0000_0000_0000 * n,
        decreases parts.len() - i,
    {
        assert(parts@.take(i + 1).drop_last() =~= parts@.take(i as int));
        let p: ShipPart = parts[i];
        assert(parts[i as int].valid());
        if contains(members, p.entity) {
            let v: Point = match p.velocity {
                Some(v) => v,
                None => Point::zero(),
            };
            x = x + p.at.x as i128;
            y = y + p.at.y as i128;
            z = z + p.at.z as i128;
            vx = vx + v.x as i128;
            vy = vy + v.y as i128;
            vz = vz + v.z as i128;
            n = n + 1;
        }
        i = i + 1;
    }
    assert(parts@.take(parts.len() as int) =~= parts@);
    if n == 0 {
        return None;
    }
    Some(
        ShipMean {
            centre: Point { x: mean_axis(x, n), y: mean_axis(y, n), z: mean_axis(z, n) },
            velocity: Point { x: mean_axis(vx, n), y: mean_axis(vy, n), z: mean_axis(vz, n) },
        },
    )
}

/// What the field does in a tick.
pub enum FieldStep {
    /// The flight has not begun or is over: the clock starts anew, and these rocks go.
    Reset { despawn: Vec<u64> },
    /// There is no ship to fly at.
    Idle,
    /// The field is around a ship that is here and this fast.
    Around { ship: ShipMean },
}

/// The entities of all rocks.
pub open spec fn all_rocks(rocks: Seq<FieldRock>) -> Seq<u64> {
    rocks.map_values(|r: FieldRock| r.entity)
}

fn every_rock(rocks: &[FieldRock]) -> (all: Vec<u64>)
    ensures
        all@ == all_rocks(rocks@),
{
    let mut all: Vec<u64> = Vec::new();
    let mut i: usize = 0;
    while i < rocks.len()
        invariant
            i <= rocks.len(),
            all@.len() == i,
            forall|k: int| 0 <= k < i ==> #[trigger] all@[k] == rocks@[k].entity,
        decreases rocks.len() - i,
    {
        all.push(rocks[i].entity);
        i = i + 1;
    }
    assert(all@ =~= all_rocks(rocks@));
    all
}

/// The first half of a tick of the field. Before liftoff the clock is reset, and what a
/// flight left behind goes: the player never chose to fly into it. `clock_ran` says
/// whether the clock stands at anything but zero; `members` is the ship, if there is one.
pub fn run_local_asteroid_field(
    launched: bool,
    clock_ran: bool,
    rocks: &[FieldRock],
    parts: &[ShipPart],
    members: Option<Vec<u64>>,
) -> (step: FieldStep)
    requires
        parts.len() <= MAX_PARTS,
        forall|i: int| 0 <= i < parts.len() ==> (#[trigger] parts[i]).valid(),
    ensures
        !launched ==> (step matches FieldStep::Reset { despawn } && despawn@ == if clock_ran {
            all_rocks(rocks@)
        } else {
            Seq::empty()
        }),
        launched ==> match members {
            Some(m) => match ship_mean(parts@, m@) {
                Some(mean) => step matches FieldStep::Around { ship } && ship == mean,
                None => step is Idle,
            },
            None => step is Idle,
        },
{
    if !launched {
        let despawn: Vec<u64> = if clock_ran {
            every_rock(rocks)
        } else {
            Vec::new()
        };
        return FieldStep::Reset { despawn };
    }
    match members {
        None => FieldStep::Idle,
        Some(m) => match ship_centre(parts, &m) {
            Some(ship) => FieldStep::Around { ship },
            None => FieldStep::Idle,
        },
    }
}

/// The rocks that stay.
pub open spec fn live_rocks(rocks: Seq<FieldRock>) -> Seq<u64> {
    pick(rocks, |r: FieldRock| !r.spent, |r: FieldRock| r.entity)
}

/// The second half of a tick: the rocks that have gone past are swept, and another is
/// spawned if the clock calls for one and the field is not full.
pub struct Sweep {
    pub despawn: Vec<u64>,
    pub spawn: bool,
}

/// Sweeps the field and decides whether a rock is spawned. `wanted` says whether the clock
/// calls for one, and `max_live` how many may be about.
pub fn sweep_field(rocks: &[FieldRock], wanted: bool, max_live: usize) -> (sweep: Sweep)
    ensures
        sweep.despawn@ == pick(rocks@, |r: FieldRock| r.spent, |r: FieldRock| r.entity),
        sweep.spawn == (wanted && live_rocks(rocks@).len() < max_live),
{
    let ghost p = |r: FieldRock| r.spent;
    let ghost q = |r: FieldRock| !r.spent;
    let ghost f = |r: FieldRock| r.entity;
    let mut despawn: Vec<u64> = Vec::new();
    let mut live: usize = 0;
    let mut i: usize = 0;
    proof {
        lemma_pick_none(rocks@, p, f);
        lemma_pick_none(rocks@, q, f);
    }
    while i < rocks.len()
        invariant
            i <= rocks.len(),
            p == (|r: FieldRock| r.spent),
            q == (|r: FieldRock| !r.spent),
            f == (|r: FieldRock| r.entity),
            despawn@ == pick(rocks@.take(i as int), p, f),
            live == pick(rocks@.take(i as int), q, f).len(),
            live <= i,
        decreases rocks.len() - i,
    {
        proof {
            lemma_pick_step(rocks@, i as int, p, f);
            lemma_pick_step(rocks@, i as int, q, f);
        }
        if rocks[i].spent {
            despawn.push(rocks[i].entity);
        } else {
            live = live + 1;
        }
        i = i + 1;
    }
    assert(rocks@.take(rocks.len() as int) =~= rocks@);
    Sweep { despawn, spawn: wanted && live < max_live }
}

/// One more part of the ship adds its place and its speed, axis by axis; one that is no part
/// of it adds nothing, and one whose speed is not known is at rest.
pub proof fn law_parts_add_up(parts: Seq<ShipPart>, p: ShipPart, members: Seq<u64>)
    ensures
        ({
            let (before, after) = (ship_sum(parts, members), ship_sum(parts.push(p), members));
            &&& members.contains(p.entity) ==> {
                &&& after.0.0 - before.0.0 == p.at.x
                &&& after.0.1 - before.0.1 == p.at.y
                &&& after.0.2 - before.0.2 == p.at.z
                &&& p.velocity matches Some(v) ==> after.1.0 - before.1.0 == v.x && after.1.1
                    - before.1.1 == v.y && after.1.2 - before.1.2 == v.z
                &&& p.velocity is None ==> after.1 == before.1
                &&& after.2 - before.2 == 1
            }
            &&& !members.contains(p.entity) ==> after == before
        }),
        ship_sum(Seq::empty(), members) == ((0int, 0int, 0int), (0int, 0int, 0int), 0int),
{
    assert(parts.push(p).drop_last() == parts);
}

/// The ship is where its parts are on the mean, to the micrometre, and as fast as they are on
/// the mean; without a part it is nowhere.
pub proof fn law_the_ship_is_at_the_mean(parts: Seq<ShipPart>, members: Seq<u64>)
    requires
        ({
            let s = ship_sum(parts, members);
            &&& -0x4000_0000_0000_0000 * s.2 <= s.0.0 <= 0x4000_0000_0000_0000 * s.2
            &&& -0x4000_0000_0000_0000 * s.2 <= s.0.1 <= 0x4000_0000_0000_0000 * s.2
            &&& -0x4000_0000_0000_0000 * s.2 <= s.0.2 <= 0x4000_0000_0000_0000 * s.2
            &&& -0x4000_0000_0000_0000 * s.2 <= s.1.0 <= 0x4000_0000_0000_0000 * s.2
            &&& -0x4000_0000_0000_0000 * s.2 <= s.1.1 <= 0x4000_0000_0000_0000 * s.2
            &&& -0x4000_0000_0000_0000 * s.2 <= s.1.2 <= 0x4000_0000_0000_0000 * s.2
            &&& 0 <= s.2
        }),
    ensures
        ({
            let s = ship_sum(parts, members);
            &&& s.2 == 0 ==> ship_mean(parts, members) is None
            &&& s.2 > 0 ==> ship_mean(parts, members) is Some && {
                let mean = ship_mean(parts, members)->0;
                &&& s.2 * mean.centre.x <= s.0.0 < s.2 * mean.centre.x + s.2
                &&& s.2 * mean.centre.y <= s.0.1 < s.2 * mean.centre.y + s.2
                &&& s.2 * mean.centre.z <= s.0.2 < s.2 * mean.centre.z + s.2
                &&& s.2 * mean.velocity.x <= s.1.0 < s.2 * mean.velocity.x + s.2
                &&& s.2 * mean.velocity.y <= s.1.1 < s.2 * mean.velocity.y + s.2
                &&& s.2 * mean.velocity.z <= s.1.2 < s.2 * mean.velocity.z + s.2
            }
        }),
{
    let s = ship_sum(parts, members);
    if s.2 > 0 {
        lemma_mean(s.0.0, s.2);
        lemma_mean(s.0.1, s.2);
        lemma_mean(s.0.2, s.2);
        lemma_mean(s.1.0, s.2);
        lemma_mean(s.1.1, s.2);
        lemma_mean(s.1.2, s.2);
    }
}

proof fn lemma_mean(sum: int, n: int)
    requires
        0 < n,
        -0x4000_0000_0000_0000 * n <= sum <= 0x4000_0000_0000_0000 * n,
    ensures
        n * (sum / n) <= sum < n * (sum / n) + n,
        -0x4000_0000_0000_0001 <= sum / n <= 0x4000_0000_0000_0000,
{
    let q = sum / n;
    vstd::arithmetic::div_mod::lemma_fundamental_div_mod(sum, n);
    vstd::arithmetic::div_mod::lemma_mod_bound(sum, n);
    assert(q <= 0x4000_0000_0000_0000) by (nonlinear_arith)
        requires
            n * q <= sum,
            sum <= 0x4000_0000_0000_0000 * n,
            0 < n,
    ;
    assert(q >= -0x4000_0000_0000_0001) by (nonlinear_arith)
        requires
            sum < n * q + n,
            -0x4000_0000_0000_0000 * n <= sum,
            0 < n,
    ;
}

/// Every rock is swept or stays, by whether it has gone past, in turn, and all of them go
/// with the flight.
pub proof fn law_rocks_are_swept_once_past(rocks: Seq<FieldRock>, r: FieldRock)
    ensures
        r.spent ==> live_rocks(rocks.push(r)) == live_rocks(rocks),
        !r.spent ==> live_rocks(rocks.push(r)) == live_rocks(rocks).push(r.entity),
        all_rocks(rocks.push(r)) == all_rocks(rocks).push(r.entity),
        live_rocks(Seq::empty()) == Seq::<u64>::empty(),
{
    let n = rocks.len() as int;
    let (p, f) = (|r: FieldRock| !r.spent, |r: FieldRock| r.entity);
    let more = rocks.push(r);
    lemma_pick_none::<FieldRock, u64>(Seq::empty(), p, f);
    lemma_pick_step(more, n, p, f);
    assert(more.take(n) == rocks && more.take(n + 1) == more);
    assert(Seq::<FieldRock>::empty().take(0) == Seq::<FieldRock>::empty());
    assert(all_rocks(rocks.push(r)) =~= all_rocks(rocks).push(r.entity));
}

} // verus!
