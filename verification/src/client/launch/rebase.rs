//! The room's moving frame, and the client's prediction of its rebases.
//!
//! The server keeps the room near the origin by shifting its frame now and then. The
//! client decides the same shift on the same tick, and holds the frame that it left behind
//! until a replicated frame covers that tick.

use crate::geom::Point;
use vstd::prelude::*;

verus! {

/// A sample of the room's frame.
#[derive(Clone, Copy, Debug, PartialEq, Eq, Structural)]
pub struct NetRoomFrame {
    /// Where the frame's origin stands in the planet's frame.
    pub offset: Point,
    /// How fast it moves, in micrometres per second.
    pub velocity: Point,
    /// The tick of the sample. Ticks wrap around.
    pub tick: u32,
}

/// A body of the room.
#[derive(Clone, Copy, Debug, PartialEq, Eq, Structural)]
pub struct Body {
    pub position: Point,
    pub velocity: Point,
}

/// What a rebase does: every body is shifted, and the frame stands elsewhere.
#[derive(Clone, Copy, Debug, PartialEq, Eq, Structural)]
pub struct RebaseOutcome {
    pub dpos: Point,
    pub dvel: Point,
    pub offset: Point,
    pub velocity: Point,
}

/// The frame of a predicted rebase that no replicated sample covers yet.
#[derive(Clone, Copy, Debug, PartialEq, Eq, Structural)]
pub struct PredictedRebase(pub Option<NetRoomFrame>);

/// How many ticks `a` is ahead of `b`: the shorter way round, negative if `a` is behind.
pub open spec fn ahead(a: u32, b: u32) -> int {
    let d = (a - b) % 0x1_0000_0000;
    if d < 0x8000_0000 {
        d
    } else {
        d - 0x1_0000_0000
    }
}

/// How many ticks `a` is ahead of `b`.
pub fn tick_diff(a: u32, b: u32) -> (d: i32)
    ensures
        d == ahead(a, b),
{
    let gap: u32 = a.wrapping_sub(b);
    if gap < 0x8000_0000 {
        gap as i32
    } else {
        (gap as i64 - 0x1_0000_0000) as i32
    }
}

impl PredictedRebase {
    /// Whether the pending frame is of no more use at `tick`: a replicated sample covers
    /// it, or it lies at or after the tick that is being decided.
    pub open spec fn stale(pending: NetRoomFrame, net: NetRoomFrame, tick: u32) -> bool {
        ahead(pending.tick, net.tick) <= 0 || ahead(tick, pending.tick) <= 0
    }

    /// What is left of the prediction at `tick`.
    pub open spec fn pruned(self, net: Option<NetRoomFrame>, tick: u32) -> PredictedRebase {
        match (self.0, net) {
            (Some(pending), Some(n)) if !PredictedRebase::stale(pending, n, tick) => self,
            _ => PredictedRebase(None),
        }
    }

    /// The sample that the frame at `tick` is advanced from.
    pub open spec fn frame_for(self, net: Option<NetRoomFrame>, tick: u32) -> Option<NetRoomFrame> {
        match self.0 {
            Some(f) if ahead(tick, f.tick) >= 0 => Some(f),
            _ => net,
        }
    }
}

/// The sample of the room's frame to advance to `tick`: the predicted one where it is not
/// of a later tick, otherwise the replicated one.
pub fn predicted_frame_at(net: Option<NetRoomFrame>, rebase: &PredictedRebase, tick: u32) -> (frame:
    Option<NetRoomFrame>)
    ensures
        frame == rebase.frame_for(net, tick),
{
    if let Some(f) = rebase.0 {
        if tick_diff(tick, f.tick) >= 0 {
            return Some(f);
        }
    }
    net
}

/// The indices of the parts that anchor the frame: those of the largest assembly, or all
/// of them where none is marked.
pub open spec fn is_anchor(marked: Seq<bool>, i: int) -> bool {
    0 <= i < marked.len() && (marked[i] || forall|j: int|
        0 <= j < marked.len() ==> !#[trigger] marked[j])
}

/// Whether `list` names exactly the anchoring parts, in order.
pub open spec fn lists_anchors(list: Seq<usize>, marked: Seq<bool>, n: int) -> bool {
    &&& forall|k: int| 0 <= k < list.len() ==> #[trigger] list[k] < n && is_anchor(marked, list[k] as int)
    &&& forall|j: int, k: int| 0 <= j < k < list.len() ==> #[trigger] list[j] < #[trigger] list[k]
    &&& forall|i: int|
        0 <= i < n && #[trigger] is_anchor(marked, i) ==> list.contains(i as usize)
}

/// The parts that anchor the frame.
pub fn anchor_members(marked: &[bool]) -> (list: Vec<usize>)
    ensures
        lists_anchors(list@, marked@, marked@.len() as int),
{
    let mut any: bool = false;
    let mut i: usize = 0;
    while i < marked.len()
        invariant
            i <= marked.len(),
            any == exists|j: int| 0 <= j < i && #[trigger] marked@[j],
        decreases marked.len() - i,
    {
        if marked[i] {
            any = true;
            assert(marked@[i as int]);
        }
        i = i + 1;
    }
    let mut list: Vec<usize> = Vec::new();
    let mut k: usize = 0;
    while k < marked.len()
        invariant
            k <= marked.len(),
            any == exists|j: int| 0 <= j < marked@.len() && #[trigger] marked@[j],
            lists_anchors(list@, marked@, k as int),
        decreases marked.len() - k,
    {
        let ghost before = list@;
        if marked[k] || !any {
            list.push(k);
            assert(is_anchor(marked@, k as int));
        } else {
            assert(!is_anchor(marked@, k as int));
        }
        proof {
            assert forall|j: int| 0 <= j < k + 1 && #[trigger] is_anchor(marked@, j) implies list@.contains(
                j as usize,
            ) by {
                if j < k {
                    assert(before.contains(j as usize));
                    let m = before.index_of(j as usize);
                    assert(list@[m] == j);
                } else {
                    assert(list@[list@.len() - 1] == k);
                }
            }
        }
        k = k + 1;
    }
    list
}

/// What has to be worked out to decide a rebase: the anchor's mean motion over `members`,
/// and the frame that `frame` has become by the tick.
pub struct RebaseQuestion {
    pub members: Vec<usize>,
    pub frame: NetRoomFrame,
}

/// Forgets a prediction that is of no more use, and says what the decision for `tick`
/// needs. There is nothing to decide without a room.
pub fn predict_room_rebase(
    rebase: &mut PredictedRebase,
    net: Option<NetRoomFrame>,
    tick: u32,
    marked: &[bool],
) -> (question: Option<RebaseQuestion>)
    ensures
        *final(rebase) == old(rebase).pruned(net, tick),
        question is Some <==> net is Some && marked@.len() > 0,
        question matches Some(q) ==> lists_anchors(q.members@, marked@, marked@.len() as int)
            && Some(q.frame) == final(rebase).frame_for(net, tick),
{
    let sample: NetRoomFrame = match net {
        Some(n) => n,
        None => {
            rebase.0 = None;
            return None;
        },
    };
    if let Some(pending) = rebase.0 {
        if tick_diff(pending.tick, sample.tick) <= 0 || tick_diff(tick, pending.tick) <= 0 {
            rebase.0 = None;
        }
    }
    if marked.len() == 0 {
        return None;
    }
    let frame: NetRoomFrame = match predicted_frame_at(net, rebase, tick) {
        Some(f) => f,
        None => sample,
    };
    Some(RebaseQuestion { members: anchor_members(marked), frame })
}

/// A body after the frame moved under it.
pub open spec fn shifted(body: Body, outcome: RebaseOutcome) -> Body {
    Body {
        position: body.position.seen_from(outcome.dpos),
        velocity: body.velocity.seen_from(outcome.dvel),
    }
}

/// Carries out a rebase: every body is shifted, and the new frame is held as predicted at
/// `tick`.
pub fn apply_rebase(
    rebase: &mut PredictedRebase,
    outcome: &RebaseOutcome,
    tick: u32,
    bodies: &mut Vec<Body>,
)
    requires
        outcome.dpos.is_world(),
        outcome.dvel.is_world(),
        forall|i: int|
            0 <= i < old(bodies).len() ==> (#[trigger] old(bodies)@[i]).position.is_world()
                && old(bodies)@[i].velocity.is_world(),
    ensures
        final(rebase).0 == Some(
            (NetRoomFrame { offset: outcome.offset, velocity: outcome.velocity, tick }),
        ),
        final(bodies)@ == old(bodies)@.map_values(|b: Body| shifted(b, *outcome)),
{
    let mut i: usize = 0;
    while i < bodies.len()
        invariant
            i <= bodies.len() == old(bodies).len(),
            outcome.dpos.is_world(),
            outcome.dvel.is_world(),
            forall|k: int|
                0 <= k < old(bodies).len() ==> (#[trigger] old(bodies)@[k]).position.is_world()
                    && old(bodies)@[k].velocity.is_world(),
            forall|k: int|
                0 <= k < i ==> #[trigger] bodies@[k] == shifted(old(bodies)@[k], *outcome),
            forall|k: int| i <= k < bodies.len() ==> #[trigger] bodies@[k] == old(bodies)@[k],
        decreases bodies.len() - i,
    {
        let body: Body = bodies[i];
        assert(bodies@[i as int] == old(bodies)@[i as int]);
        bodies.set(
            i,
            Body {
                position: body.position.relative_to(&outcome.dpos),
                velocity: body.velocity.relative_to(&outcome.dvel),
            },
        );
        i = i + 1;
    }
    assert(bodies@ =~= old(bodies)@.map_values(|b: Body| shifted(b, *outcome)));
    rebase.0 = Some(NetRoomFrame { offset: outcome.offset, velocity: outcome.velocity, tick });
}

/// A replay that walks back to or behind a predicted rebase forgets it, so the rebase is
/// decided afresh.
pub proof fn law_replay_forgets_rebase(
    pending: NetRoomFrame,
    net: Option<NetRoomFrame>,
    tick: u32,
)
    requires
        ahead(tick, pending.tick) <= 0,
    ensures
        PredictedRebase(Some(pending)).pruned(net, tick).0 is None,
{
}

/// Once a replicated frame covers the tick of the rebase, the server's frame is the truth.
pub proof fn law_covered_rebase_yields(pending: NetRoomFrame, net: NetRoomFrame, tick: u32)
    requires
        ahead(pending.tick, net.tick) <= 0,
    ensures
        PredictedRebase(Some(pending)).pruned(Some(net), tick).frame_for(Some(net), tick) == Some(
            net,
        ),
{
}

/// Until then every later tick is read from the predicted frame.
pub proof fn law_uncovered_rebase_holds(pending: NetRoomFrame, net: NetRoomFrame, tick: u32)
    requires
        ahead(pending.tick, net.tick) > 0,
        ahead(tick, pending.tick) > 0,
    ensures
        PredictedRebase(Some(pending)).pruned(Some(net), tick).frame_for(Some(net), tick) == Some(
            pending,
        ),
{
}

/// A rebase moves all bodies alike: what one body is to another does not change.
pub proof fn law_rebase_keeps_bodies_together(a: Body, b: Body, outcome: RebaseOutcome)
    requires
        a.position.is_world(),
        b.position.is_world(),
        outcome.dpos.is_world(),
    ensures
        shifted(a, outcome).position.dist2(shifted(b, outcome).position) == a.position.dist2(
            b.position,
        ),
{
}

/// A tick is ahead of another by the ticks between them, also where the count has wrapped
/// around, and the other is behind it by as much.
pub proof fn law_ticks_count_on(b: u32, n: int, a: u32)
    requires
        -0x8000_0000 < n < 0x8000_0000,
        a == b + n || a == b + n - 0x1_0000_0000 || a == b + n + 0x1_0000_0000,
    ensures
        ahead(a, b) == n,
        ahead(b, a) == -n,
{
    let d = a - b;
    assert(d == n || d == n - 0x1_0000_0000 || d == n + 0x1_0000_0000);
    lemma_around(d, n);
    lemma_around(-d, -n);
}

proof fn lemma_around(d: int, n: int)
    requires
        -0x8000_0000 < n < 0x8000_0000,
        d == n || d == n - 0x1_0000_0000 || d == n + 0x1_0000_0000,
    ensures
        n >= 0 ==> d % 0x1_0000_0000 == n,
        n < 0 ==> d % 0x1_0000_0000 == n + 0x1_0000_0000,
{
}

/// Without a replicated frame a prediction is forgotten, and without a prediction the
/// replicated frame counts. A prediction counts from its own tick on, and not before.
pub proof fn law_the_frame_of_a_tick(
    pending: NetRoomFrame,
    net: Option<NetRoomFrame>,
    tick: u32,
)
    ensures
        PredictedRebase(Some(pending)).pruned(None, tick).0 is None,
        PredictedRebase(None).frame_for(net, tick) == net,
        PredictedRebase(None).pruned(net, tick).0 is None,
        ahead(tick, pending.tick) >= 0 ==> PredictedRebase(Some(pending)).frame_for(net, tick)
            == Some(pending),
        ahead(tick, pending.tick) < 0 ==> PredictedRebase(Some(pending)).frame_for(net, tick)
            == net,
{
}

/// The parts of the largest assembly anchor the frame where any is marked; where none is, every
/// part does.
pub proof fn law_the_marked_parts_anchor(marked: Seq<bool>, i: int, k: int)
    requires
        0 <= i < marked.len(),
        0 <= k < marked.len(),
    ensures
        marked[i] ==> is_anchor(marked, i),
        marked[k] && !marked[i] ==> !is_anchor(marked, i),
        (forall|j: int| 0 <= j < marked.len() ==> !#[trigger] marked[j]) ==> is_anchor(marked, i),
        !is_anchor(marked, -1),
        !is_anchor(marked, marked.len() as int),
{
}

/// A body that a rebase shifted is where it was, less the shift, and as fast as it was, less the
/// frame's gain in speed.
pub proof fn law_a_rebase_takes_the_shift_off(body: Body, outcome: RebaseOutcome)
    requires
        body.position.is_world(),
        body.velocity.is_world(),
        outcome.dpos.is_world(),
        outcome.dvel.is_world(),
    ensures
        ({
            let b = shifted(body, outcome);
            &&& b.position.x + outcome.dpos.x == body.position.x
            &&& b.position.y + outcome.dpos.y == body.position.y
            &&& b.position.z + outcome.dpos.z == body.position.z
            &&& b.velocity.x + outcome.dvel.x == body.velocity.x
            &&& b.velocity.y + outcome.dvel.y == body.velocity.y
            &&& b.velocity.z + outcome.dvel.z == body.velocity.z
        }),
{
}

} // verus!
