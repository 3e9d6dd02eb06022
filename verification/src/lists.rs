//! Small facts and helpers about lists.

use vstd::prelude::*;

verus! {

/// Whether `x` is in `list`.
pub fn contains(list: &[u64], x: u64) -> (found: bool)
    ensures
        found == list@.contains(x),
{
    let mut i: usize = 0;
    while i < list.len()
        invariant
            i <= list.len(),
            forall|j: int| 0 <= j < i ==> list@[j] != x,
        decreases list.len() - i,
    {
        if list[i] == x {
            return true;
        }
        i = i + 1;
    }
    false
}

/// The items of `s` for which `p` holds, each replaced by what `f` makes of it.
pub open spec fn pick<A, B>(s: Seq<A>, p: spec_fn(A) -> bool, f: spec_fn(A) -> B) -> Seq<B> {
    s.filter(p).map_values(f)
}

/// One more item is picked from a longer prefix, or none.
pub proof fn lemma_pick_step<A, B>(s: Seq<A>, i: int, p: spec_fn(A) -> bool, f: spec_fn(A) -> B)
    requires
        0 <= i < s.len(),
    ensures
        pick(s.take(i + 1), p, f) == if p(s[i]) {
            pick(s.take(i), p, f).push(f(s[i]))
        } else {
            pick(s.take(i), p, f)
        },
{
    assert(s.take(i + 1) =~= s.take(i).push(s[i]));
    s.take(i).lemma_filter_push(s[i], p);
    if p(s[i]) {
        assert(s.take(i).filter(p).push(s[i]).map_values(f) =~= s.take(i).filter(p).map_values(
            f,
        ).push(f(s[i])));
    }
}

/// Nothing is picked from nothing.
pub proof fn lemma_pick_none<A, B>(s: Seq<A>, p: spec_fn(A) -> bool, f: spec_fn(A) -> B)
    ensures
        pick(s.take(0), p, f) == Seq::<B>::empty(),
{
    assert(s.take(0) =~= Seq::<A>::empty());
    reveal(Seq::filter);
    assert(pick(s.take(0), p, f) =~= Seq::<B>::empty());
}

/// What is picked comes from an item for which `p` holds, and every such item is picked.
pub proof fn lemma_pick_contains<A, B>(s: Seq<A>, p: spec_fn(A) -> bool, f: spec_fn(A) -> B, b: B)
    ensures
        pick(s, p, f).contains(b) <==> exists|i: int|
            0 <= i < s.len() && p(#[trigger] s[i]) && f(s[i]) == b,
    decreases s.len(),
{
    if s.len() == 0 {
        lemma_pick_none(s, p, f);
        assert(s.take(0) =~= s);
    } else {
        let n = s.len() - 1;
        lemma_pick_step(s, n, p, f);
        assert(s.take(n + 1) =~= s);
        let before = s.take(n);
        lemma_pick_contains(before, p, f, b);
        if pick(s, p, f).contains(b) {
            let k = pick(s, p, f).index_of(b);
            if p(s[n]) && k == pick(before, p, f).len() {
                assert(f(s[n]) == b);
            } else {
                assert(pick(before, p, f)[k] == b);
                let i = choose|i: int|
                    0 <= i < before.len() && p(#[trigger] before[i]) && f(before[i]) == b;
                assert(s[i] == before[i]);
            }
        }
        if exists|i: int| 0 <= i < s.len() && p(#[trigger] s[i]) && f(s[i]) == b {
            let i = choose|i: int| 0 <= i < s.len() && p(#[trigger] s[i]) && f(s[i]) == b;
            if i < n {
                assert(before[i] == s[i]);
                let k = pick(before, p, f).index_of(b);
                assert(pick(s, p, f)[k] == b);
            } else {
                assert(pick(s, p, f)[pick(before, p, f).len() as int] == b);
            }
        }
    }
}

/// Whether `order` lists every index below `n` once.
pub open spec fn is_order(order: Seq<usize>, n: int) -> bool {
    &&& order.len() == n
    &&& forall|k: int| 0 <= k < order.len() ==> #[trigger] order[k] < n
    &&& order.no_duplicates()
}

/// Whether `order` runs through `keys` from the smallest to the largest.
pub open spec fn ascending(order: Seq<usize>, keys: Seq<u64>) -> bool {
    forall|j: int, k: int|
        0 <= j < k < order.len() ==> keys[#[trigger] order[j] as int] <= keys[#[trigger] order[k] as int]
}

/// The indices of `keys`, by ascending key.
pub fn order_by_key(keys: &[u64]) -> (order: Vec<usize>)
    ensures
        is_order(order@, keys@.len() as int),
        ascending(order@, keys@),
{
    let mut order: Vec<usize> = Vec::new();
    let mut i: usize = 0;
    while i < keys.len()
        invariant
            i <= keys.len(),
            order.len() == i,
            forall|k: int| 0 <= k < order.len() ==> #[trigger] order[k] < i,
            order@.no_duplicates(),
            ascending(order@, keys@),
        decreases keys.len() - i,
    {
        let mut at: usize = 0;
        while at < order.len() && keys[order[at]] <= keys[i]
            invariant
                i < keys.len(),
                at <= order.len() == i,
                forall|k: int| 0 <= k < order.len() ==> #[trigger] order[k] < i,
                forall|k: int| 0 <= k < at ==> keys@[#[trigger] order[k] as int] <= keys@[i as int],
            decreases order.len() - at,
        {
            at = at + 1;
        }
        let ghost before = order@;
        order.insert(at, i);
        proof {
            assert(order@ == before.insert(at as int, i));
            assert forall|j: int, k: int| 0 <= j < k < order.len() implies keys@[#[trigger] order[j] as int]
                <= keys@[#[trigger] order[k] as int] by {
                let (bj, bk) = (if j < at { j } else { j - 1 }, if k < at { k } else { k - 1 });
                if j != at && k != at {
                    assert(order[j] == before[bj] && order[k] == before[bk]);
                } else if k == at {
                    assert(order[j] == before[bj]);
                } else {
                    assert(order[k] == before[bk]);
                    assert(keys@[before[at as int] as int] > keys@[i as int]);
                    if bk > at {
                        assert(keys@[before[at as int] as int] <= keys@[before[bk] as int]);
                    }
                }
            }
            assert forall|j: int, k: int| 0 <= j < order.len() && 0 <= k < order.len() && j != k implies #[trigger] order[j]
                != #[trigger] order[k] by {
                let (bj, bk) = (if j < at { j } else { j - 1 }, if k < at { k } else { k - 1 });
                if j != at {
                    assert(order[j] == before[bj]);
                }
                if k != at {
                    assert(order[k] == before[bk]);
                }
            }
            assert forall|k: int| 0 <= k < order.len() implies #[trigger] order[k] < i + 1 by {
                if k != at {
                    assert(order[k] == before[if k < at { k } else { k - 1 }]);
                }
            }
        }
        i = i + 1;
    }
    order
}

/// Whether the numbers of `s` increase strictly.
pub open spec fn increasing(s: Seq<u64>) -> bool {
    forall|j: int, k: int| 0 <= j < k < s.len() ==> #[trigger] s[j] < #[trigger] s[k]
}

/// Two strictly increasing lists of the same numbers are the same list.
pub proof fn lemma_increasing_unique(s: Seq<u64>, t: Seq<u64>)
    requires
        increasing(s),
        increasing(t),
        forall|x: u64| #[trigger] s.contains(x) <==> t.contains(x),
    ensures
        s == t,
    decreases s.len(),
{
    if s.len() == 0 {
        if t.len() > 0 {
            assert(t.contains(t[0]));
            assert(s.contains(t[0]));
        }
        assert(s =~= t);
    } else {
        assert(s.contains(s.last()));
        assert(t.contains(s.last()));
        let ks = t.index_of(s.last());
        assert(t.contains(t.last()));
        assert(s.contains(t.last()));
        let kt = s.index_of(t.last());
        assert(s.last() == t.last());
        let (a, b) = (s.drop_last(), t.drop_last());
        assert forall|x: u64| #[trigger] a.contains(x) <==> b.contains(x) by {
            if a.contains(x) {
                let k = a.index_of(x);
                assert(s[k] == x && x < s.last());
                assert(s.contains(x));
                let m = t.index_of(x);
                assert(b[m] == x);
            }
            if b.contains(x) {
                let k = b.index_of(x);
                assert(t[k] == x && x < t.last());
                assert(t.contains(x));
                assert(s.contains(x));
                let m = s.index_of(x);
                assert(a[m] == x);
            }
        }
        lemma_increasing_unique(a, b);
        assert(s =~= a.push(s.last()));
        assert(t =~= b.push(t.last()));
    }
}

/// In an order by keys no key comes before a smaller one, so that the first is the least and the
/// last the greatest.
pub proof fn law_an_order_starts_with_the_least(order: Seq<usize>, keys: Seq<u64>, k: int)
    requires
        is_order(order, keys.len() as int),
        ascending(order, keys),
        0 <= k < keys.len(),
    ensures
        order.len() == keys.len(),
        0 <= order[k] < keys.len(),
        keys[order[0] as int] <= keys[order[k] as int] <= keys[order.last() as int],
        forall|j: int| 0 <= j < keys.len() && j != k ==> #[trigger] order[j] != order[k],
{
}

} // verus!
