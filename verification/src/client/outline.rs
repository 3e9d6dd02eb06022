//! The outline around the part that the player looks at or holds.
//!
//! Every mesh of the outlined part has a copy that only the mask camera sees; a pass over
//! the screen draws a line where the mask, grown by a few pixels, sticks out.

use vstd::prelude::*;
use crate::lists::{lemma_pick_none, lemma_pick_step, pick};
use super::net::{highlight_grabbable, Relight};

verus! {

/// The render layer of the copies.
pub const MASK_LAYER: usize = 1;

/// The colour of the line, in millionths.
pub const OUTLINE_COLOR: [u32; 4] = [1_000_000, 950_000, 100_000, 750_000];

/// The width of the line, in pixels.
pub const OUTLINE_WIDTH_PX: u32 = 6;

/// Marks a part to be outlined.
#[derive(Clone, Copy, Debug, PartialEq, Eq, Structural)]
pub struct Outlined;

// ---- The copies ----------------------------------------------------------------------

/// A node of a part's hierarchy. The nodes of a part are listed so that every child comes
/// after its parent.
pub struct Node {
    pub entity: u64,
    pub mesh: bool,
    /// A flame plume, which is no part of the silhouette.
    pub flame: bool,
    pub children: Vec<usize>,
}

/// Whether every child is a node that comes after its parent.
pub open spec fn parents_first(nodes: Seq<Node>) -> bool {
    forall|i: int, c: int|
        0 <= i < nodes.len() && 0 <= c < nodes[i].children@.len() ==> i
            < #[trigger] nodes[i].children@[c] < nodes.len()
}

/// The nodes of the subtree under `i`, in the order in which they are visited: a node
/// before its children, and the last child first.
pub open spec fn visit(nodes: Seq<Node>, i: int) -> Seq<int>
    decreases nodes.len() - i, 0nat,
{
    if 0 <= i < nodes.len() {
        seq![i] + visit_all(nodes, nodes[i].children@, i + 1)
    } else {
        Seq::empty()
    }
}

/// The nodes of the subtrees under `list`, the last first. Every entry is at least
/// `bound`.
pub open spec fn visit_all(nodes: Seq<Node>, list: Seq<usize>, bound: int) -> Seq<int>
    decreases nodes.len() - bound, 1 + list.len(),
{
    if list.len() == 0 || bound < 0 || bound >= nodes.len() || list.last() < bound
        || list.last() >= nodes.len() {
        Seq::empty()
    } else {
        visit(nodes, list.last() as int) + visit_all(nodes, list.drop_last(), bound)
    }
}

/// What is visited does not depend on the bound.
proof fn lemma_bound_is_free(nodes: Seq<Node>, list: Seq<usize>, low: int, high: int)
    requires
        0 <= low <= high < nodes.len(),
        forall|k: int| 0 <= k < list.len() ==> high <= #[trigger] list[k] < nodes.len(),
    ensures
        visit_all(nodes, list, low) == visit_all(nodes, list, high),
    decreases list.len(),
{
    if list.len() > 0 {
        assert(high <= list[list.len() - 1] < nodes.len());
        assert forall|k: int| 0 <= k < list.drop_last().len() implies high
            <= #[trigger] list.drop_last()[k] < nodes.len() by {
            assert(list.drop_last()[k] == list[k]);
        }
        lemma_bound_is_free(nodes, list.drop_last(), low, high);
    }
}

/// The subtrees under the end of a list are visited before those under its start.
proof fn lemma_visit_appended(nodes: Seq<Node>, a: Seq<usize>, b: Seq<usize>, bound: int)
    requires
        0 <= bound < nodes.len(),
        forall|k: int| 0 <= k < a.len() ==> bound <= #[trigger] a[k] < nodes.len(),
        forall|k: int| 0 <= k < b.len() ==> bound <= #[trigger] b[k] < nodes.len(),
    ensures
        visit_all(nodes, a + b, bound) == visit_all(nodes, b, bound) + visit_all(nodes, a, bound),
    decreases b.len(),
{
    if b.len() == 0 {
        assert(a + b =~= a);
        assert(visit_all(nodes, b, bound) =~= Seq::<int>::empty());
        assert(visit_all(nodes, b, bound) + visit_all(nodes, a, bound) =~= visit_all(
            nodes,
            a,
            bound,
        ));
    } else {
        let (all, last) = (a + b, b.len() - 1);
        assert(all.last() == b[last]);
        assert(all.drop_last() =~= a + b.drop_last());
        assert forall|k: int| 0 <= k < b.drop_last().len() implies bound
            <= #[trigger] b.drop_last()[k] < nodes.len() by {
            assert(b.drop_last()[k] == b[k]);
        }
        lemma_visit_appended(nodes, a, b.drop_last(), bound);
        let head = visit(nodes, b.last() as int);
        assert(visit_all(nodes, all, bound) == head + (visit_all(nodes, b.drop_last(), bound)
            + visit_all(nodes, a, bound)));
        assert(head + (visit_all(nodes, b.drop_last(), bound) + visit_all(nodes, a, bound))
            =~= visit_all(nodes, b, bound) + visit_all(nodes, a, bound));
    }
}

/// Whether node `i` gets a copy.
pub open spec fn is_outlined(nodes: Seq<Node>, i: int) -> bool {
    nodes[i].mesh && !nodes[i].flame
}

/// The nodes under `root` that get a copy.
pub open spec fn outlined_nodes(nodes: Seq<Node>, root: int) -> Seq<u64> {
    pick(
        visit(nodes, root),
        |i: int| is_outlined(nodes, i),
        |i: int| nodes[i].entity,
    )
}

/// The nodes of a newly outlined part that get a copy on the mask's layer: every mesh of
/// its subtree but flames, so that a rocket's flare is outlined together with its body.
pub fn spawn_outlines(nodes: &[Node], root: usize) -> (proxies: Vec<u64>)
    requires
        parents_first(nodes@),
        root < nodes.len(),
    ensures
        proxies@ == outlined_nodes(nodes@, root as int),
{
    let ghost p = |i: int| is_outlined(nodes@, i);
    let ghost f = |i: int| nodes@[i].entity;
    let ghost order = visit(nodes@, root as int);
    let ghost mut done: int = 0;
    let mut proxies: Vec<u64> = Vec::new();
    let mut stack: Vec<usize> = Vec::new();
    stack.push(root);
    proof {
        lemma_pick_none(order, p, f);
        assert(stack@.drop_last() =~= Seq::<usize>::empty());
        assert(visit_all(nodes@, stack@.drop_last(), 0) =~= Seq::<int>::empty());
        assert(visit_all(nodes@, stack@, 0) =~= order);
        assert(order.skip(0) =~= order);
    }
    while stack.len() > 0
        invariant
            parents_first(nodes@),
            p == (|i: int| is_outlined(nodes@, i)),
            f == (|i: int| nodes@[i].entity),
            0 <= done <= order.len(),
            0 < nodes@.len(),
            forall|k: int| 0 <= k < stack@.len() ==> 0 <= #[trigger] stack@[k] < nodes@.len(),
            visit_all(nodes@, stack@, 0) == order.skip(done),
            proxies@ == pick(order.take(done), p, f),
        decreases order.len() - done,
    {
        let ghost all = stack@;
        let ghost rest = stack@.drop_last();
        assert(stack@[stack@.len() - 1] < nodes@.len());
        let i: usize = match stack.pop() {
            Some(i) => i,
            None => 0,
        };
        assert(stack@ =~= rest);
        let node: &Node = &nodes[i];
        let ghost children = node.children@;
        if node.mesh && !node.flame {
            proxies.push(node.entity);
        }
        let mut c: usize = 0;
        while c < node.children.len()
            invariant
                parents_first(nodes@),
                i < nodes.len(),
                *node == nodes@[i as int],
                children == node.children@,
                c <= node.children.len(),
                stack@ == rest + children.take(c as int),
            decreases node.children.len() - c,
        {
            stack.push(node.children[c]);
            assert(stack@ =~= rest + children.take(c + 1));
            c = c + 1;
        }
        proof {
            assert(children.take(children.len() as int) =~= children);
            assert forall|k: int| 0 <= k < children.len() implies i + 1 <= #[trigger] children[k]
                < nodes@.len() by {
                assert(i < nodes@[i as int].children@[k] < nodes@.len());
            }
            assert forall|k: int| 0 <= k < stack@.len() implies 0 <= #[trigger] stack@[k]
                < nodes@.len() by {
                if k < rest.len() {
                    assert(stack@[k] == all[k]);
                } else {
                    assert(stack@[k] == children[k - rest.len()]);
                }
            }
            assert forall|k: int| 0 <= k < rest.len() implies 0 <= #[trigger] rest[k]
                < nodes@.len() by {
                assert(rest[k] == all[k]);
            }
            lemma_visit_appended(nodes@, rest, children, 0);
            if children.len() > 0 {
                assert(i + 1 <= children[0] < nodes@.len());
                lemma_bound_is_free(nodes@, children, 0, i + 1);
            } else {
                assert(visit_all(nodes@, children, 0) =~= Seq::<int>::empty());
                assert(visit_all(nodes@, children, i + 1) =~= Seq::<int>::empty());
            }
            let (left, right) = (
                visit_all(nodes@, children, 0),
                visit_all(nodes@, rest, 0),
            );
            assert(visit(nodes@, i as int) == seq![i as int] + left);
            assert(order.skip(done) == (seq![i as int] + left) + right);
            let ahead = order.skip(done);
            assert(ahead.len() == 1 + left.len() + right.len());
            assert(done < order.len());
            assert(ahead[0] == i as int);
            assert(order[done] == i as int);
            assert(ahead.skip(1) =~= left + right);
            assert(order.skip(done + 1) =~= ahead.skip(1));
            lemma_pick_step(order, done, p, f);
            done = done + 1;
        }
    }
    proof {
        assert(visit_all(nodes@, stack@, 0) =~= Seq::<int>::empty());
        assert(order.skip(done).len() == 0);
        assert(order.take(done) =~= order);
    }
    proxies
}

/// Everything under an outlined part is reached: the part itself, and with a node all of
/// its children.
pub proof fn law_the_whole_subtree_is_outlined(nodes: Seq<Node>, root: int, i: int, c: int)
    requires
        parents_first(nodes),
        0 <= root < nodes.len(),
        visit(nodes, root).contains(i),
        0 <= c < nodes[i].children@.len(),
    ensures
        visit(nodes, root).contains(root),
        visit(nodes, root).contains(nodes[i].children@[c] as int),
    decreases nodes.len() - root,
{
    let order = visit(nodes, root);
    assert(order[0] == root);
    let below = nodes[root].children@;
    let under = visit_all(nodes, below, root + 1);
    assert(order =~= seq![root] + under);
    assert forall|k: int| 0 <= k < below.len() implies root + 1 <= #[trigger] below[k]
        < nodes.len() by {
        assert(root < nodes[root].children@[k] < nodes.len());
    }
    if i == root {
        assert(root + 1 <= below[c] < nodes.len());
        lemma_visits_each(nodes, below, root + 1, c);
        let m = choose|m: int| 0 <= m < under.len() && under[m] == below[c] as int;
        assert(order[m + 1] == below[c]);
    } else {
        let k = choose|k: int| 0 <= k < order.len() && order[k] == i;
        assert(under[k - 1] == i);
        assert(under.contains(i));
        lemma_visits_children(nodes, below, root + 1, i, c);
        let m = choose|m: int| 0 <= m < under.len() && under[m] == nodes[i].children@[c] as int;
        assert(order[m + 1] == nodes[i].children@[c]);
    }
}

/// Every entry of the list is visited.
proof fn lemma_visits_each(nodes: Seq<Node>, list: Seq<usize>, bound: int, c: int)
    requires
        0 <= bound < nodes.len(),
        0 <= c < list.len(),
        forall|k: int| 0 <= k < list.len() ==> bound <= #[trigger] list[k] < nodes.len(),
    ensures
        visit_all(nodes, list, bound).contains(list[c] as int),
    decreases list.len(),
{
    let last = list.len() - 1;
    assert(bound <= list[last] < nodes.len());
    let (head, tail) = (
        visit(nodes, list[last] as int),
        visit_all(nodes, list.drop_last(), bound),
    );
    let all = visit_all(nodes, list, bound);
    assert(all == head + tail);
    if c == last {
        assert(head[0] == list[last] as int);
        assert(all[0] == list[c] as int);
    } else {
        assert forall|k: int| 0 <= k < list.drop_last().len() implies bound
            <= #[trigger] list.drop_last()[k] < nodes.len() by {
            assert(list.drop_last()[k] == list[k]);
        }
        lemma_visits_each(nodes, list.drop_last(), bound, c);
        assert(list.drop_last()[c] == list[c]);
        let m = choose|m: int| 0 <= m < tail.len() && tail[m] == list[c] as int;
        assert(all[head.len() + m] == list[c] as int);
    }
}

/// With a node, its children are visited.
proof fn lemma_visits_children(nodes: Seq<Node>, list: Seq<usize>, bound: int, i: int, c: int)
    requires
        parents_first(nodes),
        0 <= bound < nodes.len(),
        forall|k: int| 0 <= k < list.len() ==> bound <= #[trigger] list[k] < nodes.len(),
        visit_all(nodes, list, bound).contains(i),
        0 <= c < nodes[i].children@.len(),
    ensures
        visit_all(nodes, list, bound).contains(nodes[i].children@[c] as int),
    decreases nodes.len() - bound, list.len(),
{
    let all = visit_all(nodes, list, bound);
    assert(list.len() > 0);
    let last = list.len() - 1;
    assert(bound <= list[last] < nodes.len());
    let r = list[last] as int;
    let (head, tail) = (visit(nodes, r), visit_all(nodes, list.drop_last(), bound));
    assert(all == head + tail);
    let child = nodes[i].children@[c] as int;
    let k = choose|k: int| 0 <= k < all.len() && all[k] == i;
    if k < head.len() {
        assert(head[k] == i);
        let below = nodes[r].children@;
        let under = visit_all(nodes, below, r + 1);
        assert(head == seq![r] + under);
        assert forall|j: int| 0 <= j < below.len() implies r + 1 <= #[trigger] below[j]
            < nodes.len() by {
            assert(r < nodes[r].children@[j] < nodes.len());
        }
        if k == 0 {
            assert(i == r);
            assert(r + 1 <= below[c] < nodes.len());
            lemma_visits_each(nodes, below, r + 1, c);
        } else {
            assert(under[k - 1] == i);
            assert(under.contains(i));
            lemma_visits_children(nodes, below, r + 1, i, c);
        }
        let m = choose|m: int| 0 <= m < under.len() && under[m] == child;
        assert(all[m + 1] == child);
    } else {
        assert(tail[k - head.len()] == i);
        assert(tail.contains(i));
        assert forall|j: int| 0 <= j < list.drop_last().len() implies bound
            <= #[trigger] list.drop_last()[j] < nodes.len() by {
            assert(list.drop_last()[j] == list[j]);
        }
        lemma_visits_children(nodes, list.drop_last(), bound, i, c);
        let m = choose|m: int| 0 <= m < tail.len() && tail[m] == child;
        assert(all[head.len() + m] == child);
    }
}

/// An outlined part and the copies that it got.
pub struct OutlineChild {
    pub part: u64,
    pub outlined: bool,
    pub proxies: Vec<u64>,
}

/// The copies to take away: those, still there, of parts that are no longer outlined.
pub open spec fn stale_proxies(parts: Seq<OutlineChild>, alive: Seq<u64>) -> Seq<u64>
    decreases parts.len(),
{
    if parts.len() == 0 {
        Seq::empty()
    } else {
        let before = stale_proxies(parts.drop_last(), alive);
        if parts.last().outlined {
            before
        } else {
            before + pick(
                parts.last().proxies@,
                |e: u64| alive.contains(e),
                |e: u64| e,
            )
        }
    }
}

/// Takes away the copies of parts that are no longer outlined; a part that is gone took
/// its copies with it.
pub fn despawn_outlines(parts: &[OutlineChild], alive: &[u64]) -> (gone: Vec<u64>)
    ensures
        gone@ == stale_proxies(parts@, alive@),
{
    let mut gone: Vec<u64> = Vec::new();
    let ghost p = |e: u64| alive@.contains(e);
    let ghost f = |e: u64| e;
    let mut i: usize = 0;
    while i < parts.len()
        invariant
            i <= parts.len(),
            p == (|e: u64| alive@.contains(e)),
            f == (|e: u64| e),
            gone@ == stale_proxies(parts@.take(i as int), alive@),
        decreases parts.len() - i,
    {
        assert(parts@.take(i + 1).drop_last() =~= parts@.take(i as int));
        let part: &OutlineChild = &parts[i];
        if !part.outlined {
            let ghost before = gone@;
            let mut k: usize = 0;
            proof {
                lemma_pick_none(part.proxies@, p, f);
                assert(before + Seq::<u64>::empty() =~= before);
            }
            while k < part.proxies.len()
                invariant
                    k <= part.proxies.len(),
                    p == (|e: u64| alive@.contains(e)),
                    f == (|e: u64| e),
                    gone@ == before + pick(part.proxies@.take(k as int), p, f),
                decreases part.proxies.len() - k,
            {
                proof {
                    lemma_pick_step(part.proxies@, k as int, p, f);
                }
                let e: u64 = part.proxies[k];
                if crate::lists::contains(alive, e) {
                    gone.push(e);
                }
                assert(gone@ =~= before + pick(part.proxies@.take(k + 1), p, f));
                k = k + 1;
            }
            assert(part.proxies@.take(part.proxies@.len() as int) =~= part.proxies@);
        }
        i = i + 1;
    }
    assert(parts@.take(parts.len() as int) =~= parts@);
    gone
}

/// Follows the player's focus with the outline; nothing is touched while it stays.
pub fn sync_outline_focus(lit: &mut Option<u64>, focused: Option<u64>) -> (change: Relight)
    ensures
        *final(lit) == focused,
        change == (if *old(lit) == focused {
            Relight { dim: None, light: None }
        } else {
            Relight { dim: *old(lit), light: focused }
        }),
{
    highlight_grabbable(lit, focused)
}

// ---- The mask ------------------------------------------------------------------------

/// Whether to spawn the mask camera now: once, and only after the panel has claimed the
/// main camera. Otherwise it would claim the mask's, and be outlined itself.
pub fn spawn_mask_camera(exists: bool, main_camera_claimed: bool) -> (spawn: bool)
    ensures
        spawn == (!exists && main_camera_claimed),
{
    !exists && main_camera_claimed
}

/// The size of the mask, in pixels.
#[derive(Clone, Copy, Debug, PartialEq, Eq, Structural)]
pub struct MaskSize {
    pub width: u32,
    pub height: u32,
}

pub open spec fn at_least_one(n: u32) -> u32 {
    if n < 1 {
        1
    } else {
        n
    }
}

/// The size to which the mask has to be brought: that of the window in real pixels, and
/// never nothing. `None` while it fits.
pub fn resize_mask_image(window: Option<MaskSize>, mask: Option<MaskSize>) -> (size: Option<MaskSize>)
    ensures
        size == match (window, mask) {
            (Some(w), Some(m)) => {
                let want = MaskSize {
                    width: at_least_one(w.width),
                    height: at_least_one(w.height),
                };
                if m == want {
                    None
                } else {
                    Some(want)
                }
            },
            _ => None,
        },
{
    match (window, mask) {
        (Some(w), Some(m)) => {
            let width: u32 = if w.width < 1 {
                1
            } else {
                w.width
            };
            let height: u32 = if w.height < 1 {
                1
            } else {
                w.height
            };
            if m.width != width || m.height != height {
                Some(MaskSize { width, height })
            } else {
                None
            }
        },
        _ => None,
    }
}

/// What becomes of the pass over one camera's screen.
#[derive(Clone, Copy, Debug, PartialEq, Eq, Structural)]
pub enum PassChange {
    Keep,
    Add,
    Remove,
}

/// What becomes of the pass of a camera that has it or not, while something is outlined or
/// not.
pub open spec fn pass_change(want: bool, present: bool) -> PassChange {
    if want && !present {
        PassChange::Add
    } else if !want && present {
        PassChange::Remove
    } else {
        PassChange::Keep
    }
}

/// Switches the pass of each camera: it runs only while at least one part is outlined.
pub fn toggle_outline_pass(outlined: usize, cameras: &[bool]) -> (changes: Vec<PassChange>)
    ensures
        changes@ == cameras@.map_values(|present: bool| pass_change(outlined > 0, present)),
{
    let want: bool = outlined > 0;
    let mut changes: Vec<PassChange> = Vec::new();
    let mut i: usize = 0;
    while i < cameras.len()
        invariant
            i <= cameras.len(),
            changes@.len() == i,
            forall|k: int| 0 <= k < i ==> #[trigger] changes@[k] == pass_change(want, cameras@[k]),
        decreases cameras.len() - i,
    {
        let present: bool = cameras[i];
        let change: PassChange = if want && !present {
            PassChange::Add
        } else if !want && present {
            PassChange::Remove
        } else {
            PassChange::Keep
        };
        changes.push(change);
        i = i + 1;
    }
    assert(changes@ =~= cameras@.map_values(|present: bool| pass_change(want, present)));
    changes
}

/// Whether the pass can run: its pipeline is there and compiled, and so are the mask and
/// the settings.
pub fn outline_pass_ready(
    pipeline: bool,
    compiled: bool,
    mask_uploaded: bool,
    settings_uploaded: bool,
) -> (ready: bool)
    ensures
        ready == (pipeline && compiled && mask_uploaded && settings_uploaded),
{
    pipeline && compiled && mask_uploaded && settings_uploaded
}

/// The camera whose pose and lens the mask camera takes over, if there is one and the mask
/// camera is the only one of its kind: the first.
pub fn sync_mask_camera(cameras: &[u64], masks: &[u64]) -> (copied: Option<(u64, u64)>)
    ensures
        copied == (if cameras@.len() > 0 && masks@.len() == 1 {
            Some((cameras@[0], masks@[0]))
        } else {
            None
        }),
{
    if cameras.len() > 0 && masks.len() == 1 {
        Some((cameras[0], masks[0]))
    } else {
        None
    }
}

/// A node gets a copy for its mesh, unless it is a flame.
pub proof fn law_flames_are_not_outlined(nodes: Seq<Node>, i: int)
    ensures
        nodes[i].mesh && !nodes[i].flame ==> is_outlined(nodes, i),
        nodes[i].flame || !nodes[i].mesh ==> !is_outlined(nodes, i),
{
}

/// What is visited under a node without children is the node alone.
pub proof fn law_a_leaf_is_visited_alone(nodes: Seq<Node>, i: int)
    requires
        0 <= i < nodes.len(),
        nodes[i].children@.len() == 0,
    ensures
        visit(nodes, i) == seq![i],
{
    assert(visit_all(nodes, nodes[i].children@, i + 1) == Seq::<int>::empty());
    assert(seq![i] + Seq::<int>::empty() =~= seq![i]);
}

/// Only copies of parts that are no longer outlined are taken away, and of those every one that
/// is still there.
pub proof fn law_copies_go_with_the_outline(
    parts: Seq<OutlineChild>,
    alive: Seq<u64>,
    k: int,
    e: u64,
)
    requires
        0 <= k < parts.len(),
        !parts[k].outlined,
        parts[k].proxies@.contains(e),
        alive.contains(e),
    ensures
        stale_proxies(parts, alive).contains(e),
    decreases parts.len(),
{
    let before = stale_proxies(parts.drop_last(), alive);
    let last = parts.last();
    let mine = pick(last.proxies@, |e: u64| alive.contains(e), |e: u64| e);
    if k == parts.len() - 1 {
        lemma_picked_copy(last.proxies@, alive, e);
        let j = choose|j: int| 0 <= j < mine.len() && mine[j] == e;
        assert((before + mine)[before.len() + j] == e);
    } else {
        assert(parts.drop_last()[k] == parts[k]);
        law_copies_go_with_the_outline(parts.drop_last(), alive, k, e);
        let j = choose|j: int| 0 <= j < before.len() && before[j] == e;
        if !last.outlined {
            assert((before + mine)[j] == e);
        }
    }
}

proof fn lemma_picked_copy(s: Seq<u64>, alive: Seq<u64>, e: u64)
    requires
        s.contains(e),
        alive.contains(e),
    ensures
        pick(s, |e: u64| alive.contains(e), |e: u64| e).contains(e),
{
    let p = |e: u64| alive.contains(e);
    assert(p(e));
    s.lemma_filter_contains_rev(p, e);
    let f = s.filter(p);
    let j = choose|j: int| 0 <= j < f.len() && f[j] == e;
    assert(f[j] == e);
    assert(pick(s, p, |e: u64| e)[j] == e);
}

/// A part that is still outlined keeps its copies: nothing is taken away while every part is
/// outlined.
pub proof fn law_outlined_parts_keep_their_copies(parts: Seq<OutlineChild>, alive: Seq<u64>)
    requires
        forall|k: int| 0 <= k < parts.len() ==> (#[trigger] parts[k]).outlined,
    ensures
        stale_proxies(parts, alive).len() == 0,
    decreases parts.len(),
{
    if parts.len() > 0 {
        assert(parts.last() == parts[parts.len() - 1]);
        assert forall|k: int| 0 <= k < parts.drop_last().len() implies (
        #[trigger] parts.drop_last()[k]).outlined by {
            assert(parts.drop_last()[k] == parts[k]);
        }
        law_outlined_parts_keep_their_copies(parts.drop_last(), alive);
    }
}

/// A camera has the pass after the change exactly while it is wanted, and nothing changes for
/// one that is right already.
pub proof fn law_the_pass_runs_while_wanted(want: bool)
    ensures
        pass_change(true, false) == PassChange::Add,
        pass_change(false, true) == PassChange::Remove,
        pass_change(want, want) == PassChange::Keep,
{
}

/// A mask is never empty and otherwise of the window's size.
pub proof fn law_a_mask_has_a_pixel(n: u32)
    ensures
        at_least_one(n) >= 1,
        n >= 1 ==> at_least_one(n) == n,
        n == 0 ==> at_least_one(n) == 1,
{
}

} // verus!
