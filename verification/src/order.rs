//! Stable ordering by integer keys: the order cameras resolve and
//! composite in, and widgets draw in.

use vstd::prelude::*;

verus! {

/// Key `a` sorts before key `b`.
pub open spec fn key_lt(a: (i64, u64), b: (i64, u64)) -> bool {
    a.0 < b.0 || (a.0 == b.0 && a.1 < b.1)
}

/// Index `a` comes before index `b` when ordering by `keys`, ties kept in
/// index order.
pub open spec fn index_before(keys: Seq<(i64, u64)>, a: int, b: int) -> bool {
    key_lt(keys[a], keys[b]) || (keys[a] == keys[b] && a < b)
}

/// `order` lists every index of `keys` once, sorted by key, equal keys in
/// index order: what a stable sort by key produces.
pub open spec fn stable_order(keys: Seq<(i64, u64)>, order: Seq<usize>) -> bool {
    &&& order.len() == keys.len()
    &&& forall|k: int| 0 <= k < order.len() ==> #[trigger] order[k] < keys.len()
    &&& forall|j: usize| j < keys.len() ==> #[trigger] order.contains(j)
    &&& forall|a: int, b: int|
        0 <= a < b < order.len() ==> index_before(keys, #[trigger] order[a] as int, #[trigger] order[b] as int)
}

/// The stable sorted order of the indices of `keys`; [`lemma_stable_order_unique`]
/// shows there is exactly one.
pub open spec fn sort_order(keys: Seq<(i64, u64)>) -> Seq<usize> {
    choose|order: Seq<usize>| stable_order(keys, order)
}

/// A stable sort by key has one outcome: two orders that both list every
/// index once, sorted by key with ties in index order, are the same.
pub proof fn lemma_stable_order_unique(keys: Seq<(i64, u64)>, o1: Seq<usize>, o2: Seq<usize>)
    requires
        stable_order(keys, o1),
        stable_order(keys, o2),
    ensures
        o1 == o2,
{
    assert forall|k: int| 0 <= k < o1.len() implies o1[k] == o2[k] by {
        lemma_orders_agree_at(keys, o1, o2, k);
    }
    assert(o1 =~= o2);
}

proof fn lemma_orders_agree_at(keys: Seq<(i64, u64)>, o1: Seq<usize>, o2: Seq<usize>, k: int)
    requires
        stable_order(keys, o1),
        stable_order(keys, o2),
        0 <= k < o1.len(),
    ensures
        o1[k] == o2[k],
    decreases k,
{
    if o1[k] != o2[k] {
        let a = o1[k];
        let b = o2[k];
        assert(o1.contains(b));
        assert(o2.contains(a));
        let m1 = choose|m: int| 0 <= m < o1.len() && o1[m] == b;
        let m2 = choose|m: int| 0 <= m < o2.len() && o2[m] == a;
        // Where each stands in the other order decides which comes first.
        if m1 < k {
            lemma_orders_agree_at(keys, o1, o2, m1);
            assert(index_before(keys, o2[m1] as int, o2[k] as int));
        } else if m2 < k {
            lemma_orders_agree_at(keys, o1, o2, m2);
            assert(index_before(keys, o1[m2] as int, o1[k] as int));
        } else {
            assert(index_before(keys, o1[k] as int, o1[m1] as int));
            assert(index_before(keys, o2[k] as int, o2[m2] as int));
        }
    }
}

/// The indices of `keys` in stable sorted order: by key, equal keys in
/// the order they appear.
pub fn stable_sort_indices(keys: &[(i64, u64)]) -> (order: Vec<usize>)
    ensures
        stable_order(keys@, order@),
        order@ == sort_order(keys@),
{
    let mut order: Vec<usize> = Vec::new();
    let n = keys.len();
    let mut i: usize = 0;
    while i < n
        invariant
            i <= n,
            n == keys@.len(),
            order@.len() == i,
            forall|k: int| 0 <= k < order@.len() ==> #[trigger] order@[k] < i,
            forall|j: usize| j < i ==> #[trigger] order@.contains(j),
            forall|a: int, b: int|
                0 <= a < b < order@.len() ==> index_before(
                    keys@,
                    #[trigger] order@[a] as int,
                    #[trigger] order@[b] as int,
                ),
        decreases n - i,
    {
        let key = keys[i];
        let mut pos = order.len();
        while pos > 0 && (keys[order[pos - 1]].0 > key.0 || (keys[order[pos - 1]].0 == key.0
            && keys[order[pos - 1]].1 > key.1))
            invariant
                pos <= order@.len(),
                order@.len() == i,
                i < n,
                n == keys@.len(),
                key == keys@[i as int],
                forall|k: int| 0 <= k < order@.len() ==> #[trigger] order@[k] < i,
                forall|k: int| pos <= k < order@.len() ==> key_lt(key, keys@[#[trigger] order@[k] as int]),
            decreases pos,
        {
            pos = pos - 1;
        }
        let ghost before = order@;
        order.insert(pos, i);
        proof {
            assert forall|j: usize| j < i + 1 implies #[trigger] order@.contains(j) by {
                if j == i {
                    assert(order@[pos as int] == i);
                } else {
                    assert(before.contains(j));
                    let m = choose|m: int| 0 <= m < before.len() && before[m] == j;
                    if m < pos {
                        assert(order@[m] == before[m]);
                    } else {
                        assert(order@[m + 1] == before[m]);
                    }
                }
            }
            assert forall|k: int| 0 <= k < pos implies !key_lt(key, keys@[#[trigger] before[k] as int]) by {
                if key_lt(key, keys@[before[k] as int]) {
                    assert(index_before(keys@, before[k] as int, before[pos - 1] as int));
                }
            }
            assert forall|a: int, b: int| 0 <= a < b < order@.len() implies index_before(
                keys@,
                #[trigger] order@[a] as int,
                #[trigger] order@[b] as int,
            ) by {
                if b < pos {
                    assert(order@[a] == before[a] && order@[b] == before[b]);
                } else if b == pos {
                    assert(order@[a] == before[a]);
                    assert(!key_lt(key, keys@[before[a] as int]));
                } else if a == pos {
                    assert(order@[b] == before[b - 1]);
                } else if a < pos {
                    assert(order@[a] == before[a] && order@[b] == before[b - 1]);
                } else {
                    assert(order@[a] == before[a - 1] && order@[b] == before[b - 1]);
                }
            }
        }
        i = i + 1;
    }
    proof {
        lemma_stable_order_unique(keys@, order@, sort_order(keys@));
    }
    order
}

} // verus!
