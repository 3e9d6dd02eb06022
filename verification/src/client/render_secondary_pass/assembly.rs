//! The main assembly: the largest group of parts that joints hold together.

use vstd::prelude::*;

verus! {

/// A joint between two bodies, named by the entity that carries it.
#[derive(Clone, Copy, Debug, PartialEq, Eq, Structural)]
pub struct Joint {
    pub entity: u64,
    pub body1: u64,
    pub body2: u64,
}

/// Whether some joint holds `a` to `b`, whichever end is which.
pub open spec fn linked(joints: Seq<Joint>, a: u64, b: u64) -> bool {
    exists|k: int|
        0 <= k < joints.len() && {
            ||| (#[trigger] joints[k]).body1 == a && joints[k].body2 == b
            ||| joints[k].body1 == b && joints[k].body2 == a
        }
}

/// Whether each body of `path` is linked to the next.
pub open spec fn is_path(joints: Seq<Joint>, path: Seq<u64>) -> bool {
    &&& path.len() > 0
    &&& forall|i: int|
        0 <= i < path.len() - 1 ==> linked(joints, #[trigger] path[i], path[i + 1])
}

/// Whether a chain of joints leads from `a` to `b`.
pub open spec fn connected(joints: Seq<Joint>, a: u64, b: u64) -> bool {
    exists|path: Seq<u64>| #[trigger] is_path(joints, path) && path[0] == a && path.last() == b
}

/// Whether some joint holds `e`.
pub open spec fn jointed(joints: Seq<Joint>, e: u64) -> bool {
    exists|k: int|
        0 <= k < joints.len() && ((#[trigger] joints[k]).body1 == e || joints[k].body2 == e)
}

/// The bodies that hang together with `e`.
pub open spec fn component(joints: Seq<Joint>, e: u64) -> Set<u64> {
    Set::new(|b: u64| jointed(joints, b) && connected(joints, e, b))
}

/// Whether `group` is one whole component of at least two bodies, and no component is
/// larger.
pub open spec fn is_main_assembly(joints: Seq<Joint>, group: Seq<u64>) -> bool {
    &&& group.no_duplicates()
    &&& group.len() >= 2
    &&& jointed(joints, group[0])
    &&& group.to_set() == component(joints, group[0])
    &&& forall|e: u64| #[trigger]
        jointed(joints, e) ==> component(joints, e).finite() && component(joints, e).len()
            <= group.len()
}

proof fn lemma_connected_self(joints: Seq<Joint>, a: u64)
    ensures
        connected(joints, a, a),
{
    assert(is_path(joints, seq![a]));
}

proof fn lemma_connected_link(joints: Seq<Joint>, a: u64, b: u64)
    requires
        linked(joints, a, b),
    ensures
        connected(joints, a, b),
{
    let path = seq![a, b];
    assert(is_path(joints, path));
    assert(path[0] == a && path.last() == b);
}

/// Being connected is mutual.
pub proof fn lemma_connected_symmetric(joints: Seq<Joint>, a: u64, b: u64)
    requires
        connected(joints, a, b),
    ensures
        connected(joints, b, a),
{
    let path = choose|path: Seq<u64>| #[trigger]
        is_path(joints, path) && path[0] == a && path.last() == b;
    let back = path.reverse();
    assert forall|i: int| 0 <= i < back.len() - 1 implies linked(
        joints,
        #[trigger] back[i],
        back[i + 1],
    ) by {
        let j = path.len() - 2 - i;
        assert(linked(joints, path[j], path[j + 1]));
        let k = choose|k: int|
            0 <= k < joints.len() && {
                ||| (#[trigger] joints[k]).body1 == path[j] && joints[k].body2 == path[j + 1]
                ||| joints[k].body1 == path[j + 1] && joints[k].body2 == path[j]
            };
        assert(back[i] == path[j + 1] && back[i + 1] == path[j]);
        assert(joints[k] == joints[k]);
    }
    assert(is_path(joints, back));
    assert(back[0] == b && back.last() == a);
}

/// Being connected carries over.
pub proof fn lemma_connected_transitive(joints: Seq<Joint>, a: u64, b: u64, c: u64)
    requires
        connected(joints, a, b),
        connected(joints, b, c),
    ensures
        connected(joints, a, c),
{
    let p = choose|path: Seq<u64>| #[trigger]
        is_path(joints, path) && path[0] == a && path.last() == b;
    let q = choose|path: Seq<u64>| #[trigger]
        is_path(joints, path) && path[0] == b && path.last() == c;
    let whole = p + q.skip(1);
    assert forall|i: int| 0 <= i < whole.len() - 1 implies linked(
        joints,
        #[trigger] whole[i],
        whole[i + 1],
    ) by {
        if i < p.len() - 1 {
            assert(whole[i] == p[i] && whole[i + 1] == p[i + 1]);
        } else {
            let j = i - (p.len() - 1);
            assert(whole[i] == q[j]);
            assert(whole[i + 1] == q[j + 1]);
        }
    }
    assert(is_path(joints, whole));
    if q.len() == 1 {
        assert(whole =~= p);
    } else {
        assert(whole.last() == q.last());
    }
    assert(whole[0] == a);
}

/// The forest: `parent[i]` leads from body `i` towards the root of its tree. `root` and
/// `rank` are what the proof knows of it: the root of each tree, and a height that grows
/// along every step.
spec fn forest(parent: Seq<usize>, root: Seq<int>, rank: Seq<nat>, top: nat) -> bool {
    &&& root.len() == parent.len()
    &&& rank.len() == parent.len()
    &&& forall|i: int|
        #![trigger parent[i]]
        #![trigger root[i]]
        0 <= i < parent.len() ==> {
            &&& parent[i] < parent.len()
            &&& 0 <= root[i] < parent.len()
            &&& root[parent[i] as int] == root[i]
            &&& parent[root[i]] == root[i]
            &&& rank[i] <= top
            &&& parent[i] == i ==> root[i] == i
            &&& parent[i] != i ==> rank[i] < rank[parent[i] as int]
            &&& root[i] != i ==> rank[i] < rank[root[i]]
        }
}

/// The root of the tree of body `e`. Every body passed on the way is hung directly under
/// the root.
fn find(
    parent: &mut Vec<usize>,
    e: usize,
    Ghost(root): Ghost<Seq<int>>,
    Ghost(rank): Ghost<Seq<nat>>,
    Ghost(top): Ghost<nat>,
) -> (r: usize)
    requires
        forest(old(parent)@, root, rank, top),
        e < old(parent).len(),
    ensures
        forest(final(parent)@, root, rank, top),
        final(parent).len() == old(parent).len(),
        r == root[e as int],
        r < final(parent).len(),
{
    let mut r: usize = e;
    while parent[r] != r
        invariant
            forest(parent@, root, rank, top),
            e < parent.len(),
            r < parent.len(),
            root[r as int] == root[e as int],
        decreases top - rank[r as int],
    {
        let ghost before = r as int;
        r = parent[r];
        assert(rank[before] < rank[r as int]);
        assert(rank[r as int] <= top);
    }
    assert(root[r as int] == r);
    let mut cur: usize = e;
    while cur != r
        invariant
            forest(parent@, root, rank, top),
            parent.len() == old(parent).len(),
            r < parent.len(),
            cur < parent.len(),
            root[r as int] == r,
            root[cur as int] == r,
        decreases top - rank[cur as int],
    {
        let next: usize = parent[cur];
        assert(root[next as int] == root[cur as int]);
        assert(parent[cur as int] != cur);
        assert(rank[next as int] <= top);
        let ghost before = parent@;
        parent.set(cur, r);
        proof {
            assert forall|i: int|
                #![trigger parent@[i]]
                #![trigger root[i]]
                0 <= i < parent.len() implies {
                &&& parent@[i] < parent.len()
                &&& 0 <= root[i] < parent.len()
                &&& root[parent@[i] as int] == root[i]
                &&& parent@[root[i]] == root[i]
                &&& rank[i] <= top
                &&& parent@[i] == i ==> root[i] == i
                &&& parent@[i] != i ==> rank[i] < rank[parent@[i] as int]
                &&& root[i] != i ==> rank[i] < rank[root[i]]
            } by {
                assert(before[i] == before[i]);
                assert(before[root[i]] == root[i]);
                assert(before[cur as int] == next);
                if i == cur {
                    assert(root[i] != i);
                }
                if root[i] == cur {
                    assert(before[cur as int] == cur);
                }
            }
        }
        cur = next;
    }
    r
}

/// Index of body `e` in `bodies`; `e` is appended where it is not there yet.
fn intern(bodies: &mut Vec<u64>, parent: &mut Vec<usize>, e: u64) -> (i: usize)
    requires
        old(bodies).len() == old(parent).len(),
        old(bodies)@.no_duplicates(),
    ensures
        final(bodies).len() == final(parent).len(),
        final(bodies)@.no_duplicates(),
        i < final(bodies).len(),
        final(bodies)[i as int] == e,
        old(bodies)@.contains(e) ==> final(bodies)@ == old(bodies)@ && final(parent)@ == old(
            parent,
        )@,
        !old(bodies)@.contains(e) ==> {
            &&& final(bodies)@ == old(bodies)@.push(e)
            &&& final(parent)@ == old(parent)@.push(old(parent).len())
            &&& i == old(bodies).len()
        },
{
    let mut i: usize = 0;
    while i < bodies.len()
        invariant
            i <= bodies.len(),
            bodies@ == old(bodies)@,
            parent@ == old(parent)@,
            bodies.len() == parent.len(),
            bodies@.no_duplicates(),
            forall|j: int| 0 <= j < i ==> bodies[j] != e,
        decreases bodies.len() - i,
    {
        if bodies[i] == e {
            assert(bodies@.contains(e));
            return i;
        }
        i = i + 1;
    }
    bodies.push(e);
    parent.push(i);
    i
}

/// What the forest knows of the first `k` joints: each body is connected to the root of
/// its tree, and the two ends of a joint are in one tree.
spec fn reflects(joints: Seq<Joint>, k: int, bodies: Seq<u64>, root: Seq<int>) -> bool {
    &&& root.len() == bodies.len()
    &&& forall|i: int|
        0 <= i < bodies.len() ==> jointed(joints, #[trigger] bodies[i]) && connected(
            joints,
            bodies[i],
            bodies[root[i]],
        )
    &&& forall|m: int|
        0 <= m < k ==> bodies.contains((#[trigger] joints[m]).body1) && bodies.contains(
            joints[m].body2,
        )
    &&& forall|m: int, p: int, q: int|
        #![trigger joints[m], bodies[p], bodies[q]]
        0 <= m < k && 0 <= p < bodies.len() && 0 <= q < bodies.len() && joints[m].body1 == bodies[p]
            && joints[m].body2 == bodies[q] ==> root[p] == root[q]
}

/// A body of its own is a tree of its own.
proof fn lemma_forest_grows(parent: Seq<usize>, root: Seq<int>, rank: Seq<nat>, top: nat)
    requires
        forest(parent, root, rank, top),
        parent.len() < usize::MAX,
    ensures
        forest(
            parent.push(parent.len() as usize),
            root.push(parent.len() as int),
            rank.push(0),
            top,
        ),
{
    let n = parent.len() as int;
    let (p2, r2, k2) = (parent.push(n as usize), root.push(n), rank.push(0nat));
    assert forall|i: int|
        #![trigger p2[i]]
        #![trigger r2[i]]
        0 <= i < p2.len() implies {
        &&& p2[i] < p2.len()
        &&& 0 <= r2[i] < p2.len()
        &&& r2[p2[i] as int] == r2[i]
        &&& p2[r2[i]] == r2[i]
        &&& k2[i] <= top
        &&& p2[i] == i ==> r2[i] == i
        &&& p2[i] != i ==> k2[i] < k2[p2[i] as int]
        &&& r2[i] != i ==> k2[i] < k2[r2[i]]
    } by {
        if i < n {
            assert(parent[i] == p2[i] && root[i] == r2[i]);
        }
    }
}

/// `root` after the tree of `ra` was hung under `rb`.
spec fn merged(root: Seq<int>, ra: int, rb: int) -> Seq<int> {
    root.map_values(
        |x: int|
            if x == ra {
                rb
            } else {
                x
            },
    )
}

/// `rank` after the tree of `ra` was hung under `rb`.
spec fn raised(rank: Seq<nat>, ra: int, rb: int) -> Seq<nat> {
    rank.update(
        rb,
        if rank[rb] > rank[ra] {
            rank[rb]
        } else {
            rank[ra] + 1
        },
    )
}

/// Hanging one root under another leaves a forest.
proof fn lemma_forest_union(
    parent: Seq<usize>,
    root: Seq<int>,
    rank: Seq<nat>,
    top: nat,
    ra: usize,
    rb: usize,
)
    requires
        forest(parent, root, rank, top),
        ra < parent.len(),
        rb < parent.len(),
        ra != rb,
        root[ra as int] == ra,
        root[rb as int] == rb,
    ensures
        forest(
            parent.update(ra as int, rb),
            merged(root, ra as int, rb as int),
            raised(rank, ra as int, rb as int),
            top + 1,
        ),
{
    let (a, b) = (ra as int, rb as int);
    let (p2, r2, k2) = (parent.update(a, rb), merged(root, a, b), raised(rank, a, b));
    assert(parent[a] == parent[a]);
    assert(parent[b] == parent[b]);
    assert(parent[root[a]] == root[a]);
    assert(parent[root[b]] == root[b]);
    assert forall|i: int|
        #![trigger p2[i]]
        #![trigger r2[i]]
        0 <= i < p2.len() implies {
        &&& p2[i] < p2.len()
        &&& 0 <= r2[i] < p2.len()
        &&& r2[p2[i] as int] == r2[i]
        &&& p2[r2[i]] == r2[i]
        &&& k2[i] <= top + 1
        &&& p2[i] == i ==> r2[i] == i
        &&& p2[i] != i ==> k2[i] < k2[p2[i] as int]
        &&& r2[i] != i ==> k2[i] < k2[r2[i]]
    } by {
        assert(parent[i] == parent[i]);
        assert(root[parent[i] as int] == root[i]);
        assert(parent[root[i]] == root[i]);
        let up = parent[i] as int;
        assert(r2[up] == if root[up] == a { b } else { root[up] });
        assert(r2[b] == b);
        if i == b {
            assert(parent[i] == b);
        }
    }
}

/// Adding the ends of joint `k` to the bodies keeps what is known of the joints before.
proof fn lemma_reflects_grows(
    joints: Seq<Joint>,
    k: int,
    bodies: Seq<u64>,
    root: Seq<int>,
    e: u64,
)
    requires
        reflects(joints, k, bodies, root),
        forall|i: int| 0 <= i < root.len() ==> 0 <= #[trigger] root[i] < bodies.len(),
        jointed(joints, e),
        !bodies.contains(e),
    ensures
        reflects(joints, k, bodies.push(e), root.push(bodies.len() as int)),
{
    let (b2, r2) = (bodies.push(e), root.push(bodies.len() as int));
    assert forall|i: int| 0 <= i < b2.len() implies jointed(joints, #[trigger] b2[i]) && connected(
        joints,
        b2[i],
        b2[r2[i]],
    ) by {
        if i < bodies.len() {
            assert(b2[i] == bodies[i]);
            assert(0 <= root[i] < bodies.len());
            assert(b2[r2[i]] == bodies[root[i]]);
        } else {
            lemma_connected_self(joints, e);
        }
    }
    assert forall|m: int| 0 <= m < k implies b2.contains((#[trigger] joints[m]).body1)
        && b2.contains(joints[m].body2) by {
        let i = bodies.index_of(joints[m].body1);
        let j = bodies.index_of(joints[m].body2);
        assert(b2[i] == joints[m].body1);
        assert(b2[j] == joints[m].body2);
    }
    assert forall|m: int, p: int, q: int|
        #![trigger joints[m], b2[p], b2[q]]
        0 <= m < k && 0 <= p < b2.len() && 0 <= q < b2.len() && joints[m].body1 == b2[p]
            && joints[m].body2 == b2[q] implies r2[p] == r2[q] by {
        assert(bodies.contains(joints[m].body1) && bodies.contains(joints[m].body2));
        assert(p < bodies.len() && q < bodies.len());
        assert(b2[p] == bodies[p] && b2[q] == bodies[q]);
    }
}

/// Merging the trees of the two ends of joint `k` takes that joint in.
proof fn lemma_reflects_union(
    joints: Seq<Joint>,
    k: int,
    bodies: Seq<u64>,
    root: Seq<int>,
    a: int,
    b: int,
)
    requires
        reflects(joints, k, bodies, root),
        bodies.no_duplicates(),
        forall|i: int| 0 <= i < root.len() ==> 0 <= #[trigger] root[i] < bodies.len(),
        0 <= k < joints.len(),
        0 <= a < bodies.len(),
        0 <= b < bodies.len(),
        bodies[a] == joints[k].body1,
        bodies[b] == joints[k].body2,
    ensures
        reflects(joints, k + 1, bodies, merged(root, root[a], root[b])),
{
    let (ra, rb) = (root[a], root[b]);
    let r2 = merged(root, ra, rb);
    assert forall|i: int| 0 <= i < bodies.len() implies jointed(joints, #[trigger] bodies[i])
        && connected(joints, bodies[i], bodies[r2[i]]) by {
        if root[i] == ra {
            assert(connected(joints, bodies[i], bodies[ra]));
            assert(connected(joints, bodies[a], bodies[ra]));
            lemma_connected_symmetric(joints, bodies[a], bodies[ra]);
            lemma_connected_transitive(joints, bodies[i], bodies[ra], bodies[a]);
            assert(linked(joints, bodies[a], bodies[b]));
            lemma_connected_link(joints, bodies[a], bodies[b]);
            lemma_connected_transitive(joints, bodies[i], bodies[a], bodies[b]);
            assert(connected(joints, bodies[b], bodies[rb]));
            lemma_connected_transitive(joints, bodies[i], bodies[b], bodies[rb]);
        }
    }
    assert forall|m: int| 0 <= m < k + 1 implies bodies.contains((#[trigger] joints[m]).body1)
        && bodies.contains(joints[m].body2) by {
        if m == k {
            assert(bodies.contains(bodies[a]) && bodies.contains(bodies[b]));
        }
    }
    assert forall|m: int, p: int, q: int|
        #![trigger joints[m], bodies[p], bodies[q]]
        0 <= m < k + 1 && 0 <= p < bodies.len() && 0 <= q < bodies.len() && joints[m].body1
            == bodies[p] && joints[m].body2 == bodies[q] implies r2[p] == r2[q] by {
        if m == k {
            assert(p == a && q == b);
        } else {
            assert(root[p] == root[q]);
        }
    }
}

/// A chain of joints stays within one tree.
proof fn lemma_path_one_tree(
    joints: Seq<Joint>,
    bodies: Seq<u64>,
    root: Seq<int>,
    path: Seq<u64>,
    p: int,
    q: int,
)
    requires
        reflects(joints, joints.len() as int, bodies, root),
        bodies.no_duplicates(),
        is_path(joints, path),
        0 <= p < bodies.len(),
        0 <= q < bodies.len(),
        bodies[p] == path[0],
        bodies[q] == path.last(),
    ensures
        root[p] == root[q],
    decreases path.len(),
{
    if path.len() == 1 {
        assert(p == q);
    } else {
        let n = path.len() - 2;
        assert(linked(joints, path[n], path[n + 1]));
        let k = choose|k: int|
            0 <= k < joints.len() && {
                ||| (#[trigger] joints[k]).body1 == path[n] && joints[k].body2 == path[n + 1]
                ||| joints[k].body1 == path[n + 1] && joints[k].body2 == path[n]
            };
        assert(bodies.contains(joints[k].body1) && bodies.contains(joints[k].body2));
        let m = bodies.index_of(path[n]);
        assert(bodies[m] == path[n]);
        let front = path.drop_last();
        assert forall|i: int| 0 <= i < front.len() - 1 implies linked(
            joints,
            #[trigger] front[i],
            front[i + 1],
        ) by {
            assert(front[i] == path[i] && front[i + 1] == path[i + 1]);
        }
        assert(is_path(joints, front));
        lemma_path_one_tree(joints, bodies, root, front, p, m);
        assert(bodies[q] == path[n + 1]);
    }
}

/// The bodies of the tree with root `r`, among the first `n`.
spec fn tree_upto(bodies: Seq<u64>, root: Seq<int>, r: int, n: int) -> Seq<u64>
    decreases n,
{
    if n <= 0 {
        Seq::empty()
    } else if root[n - 1] == r {
        tree_upto(bodies, root, r, n - 1).push(bodies[n - 1])
    } else {
        tree_upto(bodies, root, r, n - 1)
    }
}

proof fn lemma_tree(bodies: Seq<u64>, root: Seq<int>, r: int, n: int)
    requires
        0 <= n <= bodies.len(),
        bodies.no_duplicates(),
    ensures
        tree_upto(bodies, root, r, n).no_duplicates(),
        forall|b: u64| #[trigger]
            tree_upto(bodies, root, r, n).contains(b) <==> exists|i: int|
                0 <= i < n && root[i] == r && #[trigger] bodies[i] == b,
    decreases n,
{
    let list = tree_upto(bodies, root, r, n);
    if n > 0 {
        lemma_tree(bodies, root, r, n - 1);
        let before = tree_upto(bodies, root, r, n - 1);
        assert forall|b: u64| #[trigger] list.contains(b) <==> exists|i: int|
            0 <= i < n && root[i] == r && #[trigger] bodies[i] == b by {
            if list.contains(b) {
                let k = list.index_of(b);
                if k < before.len() {
                    assert(before[k] == b);
                    assert(before.contains(b));
                    let i = choose|i: int| 0 <= i < n - 1 && root[i] == r && #[trigger] bodies[i] == b;
                    assert(bodies[i] == b);
                } else {
                    assert(bodies[n - 1] == b);
                }
            }
            if exists|i: int| 0 <= i < n && root[i] == r && #[trigger] bodies[i] == b {
                let i = choose|i: int| 0 <= i < n && root[i] == r && #[trigger] bodies[i] == b;
                if i < n - 1 {
                    assert(before.contains(b));
                    let k = before.index_of(b);
                    assert(list[k] == b);
                } else {
                    assert(list[before.len() as int] == b);
                }
            }
        }
        if root[n - 1] == r {
            assert(!before.contains(bodies[n - 1])) by {
                if before.contains(bodies[n - 1]) {
                    let i = choose|i: int|
                        0 <= i < n - 1 && root[i] == r && #[trigger] bodies[i] == bodies[n - 1];
                    assert(bodies[i] == bodies[n - 1]);
                }
            }
        }
    }
}

/// The tree of a body is its component.
proof fn lemma_tree_is_component(joints: Seq<Joint>, bodies: Seq<u64>, root: Seq<int>, i: int)
    requires
        reflects(joints, joints.len() as int, bodies, root),
        bodies.no_duplicates(),
        forall|j: int| 0 <= j < root.len() ==> 0 <= #[trigger] root[j] < bodies.len(),
        0 <= i < bodies.len(),
    ensures
        tree_upto(bodies, root, root[i], bodies.len() as int).to_set() == component(
            joints,
            bodies[i],
        ),
        tree_upto(bodies, root, root[i], bodies.len() as int).no_duplicates(),
        component(joints, bodies[i]).finite(),
        component(joints, bodies[i]).len() == tree_upto(
            bodies,
            root,
            root[i],
            bodies.len() as int,
        ).len(),
{
    let n = bodies.len() as int;
    let tree = tree_upto(bodies, root, root[i], n);
    lemma_tree(bodies, root, root[i], n);
    assert forall|b: u64| #[trigger] tree.to_set().contains(b) <==> component(
        joints,
        bodies[i],
    ).contains(b) by {
        if tree.contains(b) {
            let j = choose|j: int| 0 <= j < n && root[j] == root[i] && #[trigger] bodies[j] == b;
            assert(connected(joints, bodies[i], bodies[root[i]]));
            assert(connected(joints, bodies[j], bodies[root[j]]));
            lemma_connected_symmetric(joints, bodies[j], bodies[root[j]]);
            lemma_connected_transitive(joints, bodies[i], bodies[root[i]], bodies[j]);
        }
        if jointed(joints, b) && connected(joints, bodies[i], b) {
            let m = choose|m: int|
                0 <= m < joints.len() && ((#[trigger] joints[m]).body1 == b || joints[m].body2 == b);
            assert(bodies.contains(joints[m].body1) && bodies.contains(joints[m].body2));
            let j = bodies.index_of(b);
            assert(bodies[j] == b);
            let path = choose|path: Seq<u64>| #[trigger]
                is_path(joints, path) && path[0] == bodies[i] && path.last() == b;
            lemma_path_one_tree(joints, bodies, root, path, i, j);
            assert(tree.contains(b));
        }
    }
    assert(tree.to_set() =~= component(joints, bodies[i]));
    tree.unique_seq_to_set();
}

/// The bodies of the tree with root `r`.
fn collect_tree(bodies: &Vec<u64>, roots: &Vec<usize>, r: usize) -> (list: Vec<u64>)
    requires
        bodies.len() == roots.len(),
    ensures
        list@ == tree_upto(
            bodies@,
            roots@.map_values(|x: usize| x as int),
            r as int,
            bodies.len() as int,
        ),
{
    let mut list: Vec<u64> = Vec::new();
    let mut i: usize = 0;
    while i < bodies.len()
        invariant
            i <= bodies.len() == roots.len(),
            list@ == tree_upto(
                bodies@,
                roots@.map_values(|x: usize| x as int),
                r as int,
                i as int,
            ),
        decreases bodies.len() - i,
    {
        if roots[i] == r {
            list.push(bodies[i]);
        }
        i = i + 1;
    }
    list
}

/// The largest group of at least two bodies that the joints hold together, found by
/// joining trees of bodies joint by joint. `None` when no joint holds two bodies.
pub fn largest_assembly(joints: &[Joint]) -> (group: Option<Vec<u64>>)
    requires
        joints.len() < usize::MAX / 2,
    ensures
        match group {
            Some(g) => is_main_assembly(joints@, g@),
            None => forall|e: u64| #[trigger]
                jointed(joints@, e) ==> component(joints@, e).finite() && component(
                    joints@,
                    e,
                ).len() < 2,
        },
{
    let mut bodies: Vec<u64> = Vec::new();
    let mut parent: Vec<usize> = Vec::new();
    let ghost mut root: Seq<int> = Seq::empty();
    let ghost mut rank: Seq<nat> = Seq::empty();
    let ghost mut top: nat = 0;
    let mut k: usize = 0;
    while k < joints.len()
        invariant
            k <= joints.len() < usize::MAX / 2,
            bodies.len() == parent.len() <= 2 * k,
            bodies@.no_duplicates(),
            forest(parent@, root, rank, top),
            reflects(joints@, k as int, bodies@, root),
        decreases joints.len() - k,
    {
        let joint: Joint = joints[k];
        proof {
            assert(jointed(joints@, joint.body1)) by {
                assert(joints@[k as int].body1 == joint.body1);
            }
            assert(jointed(joints@, joint.body2)) by {
                assert(joints@[k as int].body2 == joint.body2);
            }
        }
        let ghost (bodies0, parent0) = (bodies@, parent@);
        let a: usize = intern(&mut bodies, &mut parent, joint.body1);
        proof {
            if !bodies0.contains(joint.body1) {
                lemma_forest_grows(parent0, root, rank, top);
                lemma_reflects_grows(joints@, k as int, bodies0, root, joint.body1);
                root = root.push(parent0.len() as int);
                rank = rank.push(0);
            }
        }
        let ghost (bodies1, parent1) = (bodies@, parent@);
        let b: usize = intern(&mut bodies, &mut parent, joint.body2);
        proof {
            if !bodies1.contains(joint.body2) {
                lemma_forest_grows(parent1, root, rank, top);
                lemma_reflects_grows(joints@, k as int, bodies1, root, joint.body2);
                root = root.push(parent1.len() as int);
                rank = rank.push(0);
            }
        }
        assert(bodies[a as int] == joint.body1);
        let ra: usize = find(&mut parent, a, Ghost(root), Ghost(rank), Ghost(top));
        let rb: usize = find(&mut parent, b, Ghost(root), Ghost(rank), Ghost(top));
        proof {
            lemma_reflects_union(joints@, k as int, bodies@, root, a as int, b as int);
        }
        if ra != rb {
            proof {
                assert(root[root[a as int]] == root[a as int]) by {
                    assert(parent@[root[a as int]] == root[a as int]);
                }
                assert(root[root[b as int]] == root[b as int]) by {
                    assert(parent@[root[b as int]] == root[b as int]);
                }
                lemma_forest_union(parent@, root, rank, top, ra, rb);
                rank = raised(rank, ra as int, rb as int);
                root = merged(root, ra as int, rb as int);
                top = top + 1;
            }
            parent.set(ra, rb);
        } else {
            proof {
                assert(merged(root, ra as int, rb as int) =~= root);
            }
        }
        k = k + 1;
    }
    let mut roots: Vec<usize> = Vec::new();
    let mut i: usize = 0;
    while i < bodies.len()
        invariant
            i <= bodies.len() == parent.len(),
            roots.len() == i,
            forest(parent@, root, rank, top),
            forall|j: int| 0 <= j < i ==> #[trigger] roots[j] == root[j],
        decreases bodies.len() - i,
    {
        let r: usize = find(&mut parent, i, Ghost(root), Ghost(rank), Ghost(top));
        roots.push(r);
        i = i + 1;
    }
    assert(roots@.map_values(|x: usize| x as int) =~= root);
    let mut best: Vec<u64> = Vec::new();
    let mut j: usize = 0;
    while j < bodies.len()
        invariant
            j <= bodies.len() == parent.len(),
            roots.len() == bodies.len(),
            bodies@.no_duplicates(),
            forest(parent@, root, rank, top),
            reflects(joints@, joints@.len() as int, bodies@, root),
            roots@.map_values(|x: usize| x as int) == root,
            best@.no_duplicates(),
            best.len() > 0 ==> jointed(joints@, best[0]) && best@.to_set() == component(
                joints@,
                best[0],
            ),
            forall|m: int|
                0 <= m < j ==> component(joints@, #[trigger] bodies@[m]).finite() && component(
                    joints@,
                    bodies@[m],
                ).len() <= best.len(),
        decreases bodies.len() - j,
    {
        let tree: Vec<u64> = collect_tree(&bodies, &roots, roots[j]);
        proof {
            lemma_tree_is_component(joints@, bodies@, root, j as int);
            assert(roots[j as int] == root[j as int]);
        }
        if tree.len() > best.len() {
            proof {
                assert(tree@.to_set().contains(tree[0])) by {
                    assert(tree@.contains(tree[0]));
                }
                assert(connected(joints@, bodies@[j as int], tree[0]));
                lemma_component_shared(joints@, bodies@[j as int], tree[0]);
            }
            best = tree;
        }
        j = j + 1;
    }
    proof {
        assert forall|e: u64| #[trigger] jointed(joints@, e) implies component(
            joints@,
            e,
        ).finite() && component(joints@, e).len() <= best.len() by {
            let m = choose|m: int|
                0 <= m < joints@.len() && ((#[trigger] joints@[m]).body1 == e || joints@[m].body2
                    == e);
            assert(bodies@.contains(joints@[m].body1) && bodies@.contains(joints@[m].body2));
            let p = bodies@.index_of(e);
            assert(bodies@[p] == e);
        }
    }
    if best.len() >= 2 {
        Some(best)
    } else {
        None
    }
}

/// Bodies that hang together have one component.
proof fn lemma_component_shared(joints: Seq<Joint>, a: u64, b: u64)
    requires
        connected(joints, a, b),
    ensures
        component(joints, a) == component(joints, b),
{
    lemma_connected_symmetric(joints, a, b);
    assert forall|c: u64| #[trigger] component(joints, a).contains(c) <==> component(
        joints,
        b,
    ).contains(c) by {
        if connected(joints, a, c) {
            lemma_connected_transitive(joints, b, a, c);
        }
        if connected(joints, b, c) {
            lemma_connected_transitive(joints, a, b, c);
        }
    }
    assert(component(joints, a) =~= component(joints, b));
}

/// A joint holds both of its bodies, and a chain of joints leads from each to the other.
pub proof fn law_a_joint_holds_its_bodies_together(joints: Seq<Joint>, k: int)
    requires
        0 <= k < joints.len(),
    ensures
        jointed(joints, joints[k].body1),
        jointed(joints, joints[k].body2),
        connected(joints, joints[k].body1, joints[k].body2),
        connected(joints, joints[k].body2, joints[k].body1),
        component(joints, joints[k].body1).contains(joints[k].body2),
        component(joints, joints[k].body2).contains(joints[k].body1),
{
    let (a, b) = (joints[k].body1, joints[k].body2);
    let (p, q) = (seq![a, b], seq![b, a]);
    assert(linked(joints, a, b) && linked(joints, b, a));
    assert(is_path(joints, p) && p[0] == a && p.last() == b);
    assert(is_path(joints, q) && q[0] == b && q.last() == a);
}

/// Chains of joints can be put end to end, and run both ways.
pub proof fn law_chains_join(joints: Seq<Joint>, a: u64, b: u64, c: u64)
    requires
        connected(joints, a, b),
        connected(joints, b, c),
    ensures
        connected(joints, a, c),
        connected(joints, b, a),
{
    let p = choose|path: Seq<u64>| #[trigger]
        is_path(joints, path) && path[0] == a && path.last() == b;
    let q = choose|path: Seq<u64>| #[trigger]
        is_path(joints, path) && path[0] == b && path.last() == c;
    let r = p + q.skip(1);
    assert forall|i: int| 0 <= i < r.len() - 1 implies linked(joints, #[trigger] r[i], r[i + 1]) by {
        if i + 1 < p.len() {
            assert(r[i] == p[i] && r[i + 1] == p[i + 1]);
        } else {
            let j = i + 1 - p.len();
            assert(r[i + 1] == q[j + 1]);
            assert(r[i] == q[j]);
        }
    }
    assert(r[0] == a);
    assert(r.last() == c);
    assert(is_path(joints, r));
    let s = Seq::new(p.len(), |i: int| p[p.len() - 1 - i]);
    assert forall|i: int| 0 <= i < s.len() - 1 implies linked(joints, #[trigger] s[i], s[i + 1]) by {
        let j = p.len() - 2 - i;
        assert(s[i + 1] == p[j] && s[i] == p[j + 1]);
        assert(linked(joints, p[j], p[j + 1]));
    }
    assert(s[0] == b && s.last() == a);
    assert(is_path(joints, s));
}

/// The main assembly is whole: a joint from one of its bodies leads to another of them; and it
/// hangs together: a chain leads from its first body to each.
pub proof fn law_the_main_assembly_is_whole(joints: Seq<Joint>, group: Seq<u64>, k: int, i: int)
    requires
        is_main_assembly(joints, group),
        0 <= k < joints.len(),
        0 <= i < group.len(),
    ensures
        group.contains(joints[k].body1) <==> group.contains(joints[k].body2),
        connected(joints, group[0], group[i]),
        group.len() >= 2,
        group.no_duplicates(),
{
    let (a, b) = (joints[k].body1, joints[k].body2);
    law_a_joint_holds_its_bodies_together(joints, k);
    let whole = component(joints, group[0]);
    assert(group.to_set().contains(group[i]));
    assert(whole.contains(group[i]));
    if group.contains(a) {
        assert(group.to_set().contains(a));
        law_chains_join(joints, group[0], a, b);
        assert(whole.contains(b));
        assert(group.to_set().contains(b));
    }
    if group.contains(b) {
        assert(group.to_set().contains(b));
        law_chains_join(joints, group[0], b, a);
        assert(whole.contains(a));
        assert(group.to_set().contains(a));
    }
}

/// No other group of bodies that joints hold together is larger than the main assembly.
pub proof fn law_the_main_assembly_is_the_largest(
    joints: Seq<Joint>,
    group: Seq<u64>,
    other: Seq<u64>,
)
    requires
        is_main_assembly(joints, group),
        other.no_duplicates(),
        other.len() > 0,
        forall|i: int|
            0 <= i < other.len() ==> jointed(joints, #[trigger] other[i]) && connected(
                joints,
                other[0],
                other[i],
            ),
    ensures
        other.len() <= group.len(),
{
    let whole = component(joints, other[0]);
    assert(jointed(joints, other[0]));
    assert(other.to_set().subset_of(whole)) by {
        assert forall|e: u64| other.to_set().contains(e) implies whole.contains(e) by {
            let i = choose|i: int| 0 <= i < other.len() && other[i] == e;
            assert(jointed(joints, other[i]));
        }
    }
    other.unique_seq_to_set();
    vstd::set_lib::lemma_len_subset(other.to_set(), whole);
}

} // verus!
