//! Ordering items by integer keys, as the timestamps of a video and the
//! colour points of a palette are ordered by their positions in hundredths:
//! a stable order (items of equal keys keep their order), and whether the keys
//! are all different.

use std::collections::HashSet;

use vstd::prelude::*;

verus! {

/// `order` lists each position of `keys` once.
pub open spec fn is_permutation(order: Seq<usize>, n: nat) -> bool {
    &&& order.len() == n
    &&& forall|i: int| 0 <= i < n ==> #[trigger] order[i] < n
    &&& forall|i: int, j: int| 0 <= i < j < n ==> order[i] != order[j]
}

/// Along `order`, the keys never decrease, and positions of equal keys come
/// in their own order.
pub open spec fn stably_sorted(keys: Seq<u32>, order: Seq<usize>) -> bool {
    forall|i: int, j: int|
        0 <= i < j < order.len() ==> {
            &&& keys[order[i] as int] <= keys[order[j] as int]
            &&& keys[order[i] as int] == keys[order[j] as int] ==> order[i] < order[j]
        }
}

/// No two of `keys` are equal.
pub open spec fn all_distinct(keys: Seq<u32>) -> bool {
    forall|i: int, j: int| 0 <= i < j < keys.len() ==> keys[i] != keys[j]
}

/// Inserting position `k` before the first listed position with a greater
/// key keeps a stable order of the positions before `k`.
proof fn lemma_insert_keeps_order(keys: Seq<u32>, order: Seq<usize>, k: usize, p: int)
    requires
        k < keys.len(),
        is_permutation(order, k as nat),
        stably_sorted(keys, order),
        0 <= p <= order.len(),
        forall|i: int| 0 <= i < p ==> keys[order[i] as int] <= keys[k as int],
        forall|i: int| p <= i < order.len() ==> keys[order[i] as int] > keys[k as int],
    ensures
        is_permutation(order.insert(p, k), (k + 1) as nat),
        stably_sorted(keys, order.insert(p, k)),
{
    let o2 = order.insert(p, k);
    assert forall|i: int| 0 <= i < k + 1 implies #[trigger] o2[i] < k + 1 by {
        if i < p {
            assert(o2[i] == order[i]);
        } else if i > p {
            assert(o2[i] == order[i - 1]);
        }
    }
    assert forall|i: int, j: int| 0 <= i < j < k + 1 implies o2[i] != o2[j] by {
        if j < p {
            assert(o2[i] == order[i] && o2[j] == order[j]);
        } else if j == p {
            assert(o2[i] == order[i]);
        } else if i < p {
            assert(o2[i] == order[i] && o2[j] == order[j - 1]);
        } else if i == p {
            assert(o2[j] == order[j - 1]);
        } else {
            assert(o2[i] == order[i - 1] && o2[j] == order[j - 1]);
        }
    }
    assert forall|i: int, j: int| 0 <= i < j < o2.len() implies {
        &&& keys[o2[i] as int] <= keys[o2[j] as int]
        &&& keys[o2[i] as int] == keys[o2[j] as int] ==> o2[i] < o2[j]
    } by {
        if j < p {
            assert(o2[i] == order[i] && o2[j] == order[j]);
        } else if j == p {
            assert(o2[i] == order[i]);
            assert(o2[j] == k);
        } else if i < p {
            assert(o2[i] == order[i] && o2[j] == order[j - 1]);
        } else if i == p {
            assert(o2[i] == k);
            assert(o2[j] == order[j - 1]);
        } else {
            assert(o2[i] == order[i - 1] && o2[j] == order[j - 1]);
        }
    }
}

/// Returns the positions of `keys` in the order that sorts them, items of
/// equal keys keeping their order (the order a stable sort by these keys
/// gives).
pub fn stable_order(keys: &Vec<u32>) -> (order: Vec<usize>)
    ensures
        is_permutation(order@, keys@.len()),
        stably_sorted(keys@, order@),
{
    let mut order: Vec<usize> = Vec::new();
    let mut k: usize = 0;
    while k < keys.len()
        invariant
            k <= keys@.len(),
            is_permutation(order@, k as nat),
            stably_sorted(keys@, order@),
        decreases keys@.len() - k,
    {
        let key = keys[k];
        let mut p: usize = 0;
        while p < order.len() && keys[order[p]] <= key
            invariant
                k < keys@.len(),
                key == keys@[k as int],
                is_permutation(order@, k as nat),
                p <= order@.len(),
                forall|i: int| 0 <= i < p ==> keys@[order@[i] as int] <= key,
            decreases order@.len() - p,
        {
            p = p + 1;
        }
        proof {
            assert forall|i: int| p <= i < order@.len() implies keys@[order@[i] as int] > key by {
                if p < order@.len() {
                    assert(keys@[order@[p as int] as int] > key);
                    if i > p {
                        assert(keys@[order@[p as int] as int] <= keys@[order@[i] as int]);
                    }
                }
            }
            lemma_insert_keeps_order(keys@, order@, k, p as int);
        }
        order.insert(p, k);
        k = k + 1;
    }
    order
}

/// Returns whether no two of `keys` are equal, by inserting them one by one
/// into a hash set until one is already there.
pub fn distinct_keys(keys: &Vec<u32>) -> (b: bool)
    ensures
        b == all_distinct(keys@),
{
    broadcast use vstd::std_specs::hash::group_hash_axioms;

    let n = keys.len();
    let mut seen: HashSet<u32> = HashSet::new();
    let mut i: usize = 0;
    while i < n
        invariant
            n == keys@.len(),
            i <= n,
            all_distinct(keys@.take(i as int)),
            forall|k: u32| #[trigger] seen@.contains(k) <==> exists|a: int| 0 <= a < i && keys@[a] == k,
        decreases n - i,
    {
        let k = keys[i];
        if !seen.insert(k) {
            proof {
                let a = choose|a: int| 0 <= a < i && keys@[a] == k;
                assert(keys@[a] == keys@[i as int]);
            }
            return false;
        }
        assert forall|a: int, c: int| 0 <= a < c < i + 1 implies #[trigger] keys@.take(i + 1)[a]
            != #[trigger] keys@.take(i + 1)[c] by {
            if c == i {
                assert(!(exists|a2: int| 0 <= a2 < i && keys@[a2] == k));
                assert(keys@[a] != k);
            } else {
                assert(keys@.take(i as int)[a] != keys@.take(i as int)[c]);
            }
        }
        assert forall|k2: u32| #[trigger] seen@.contains(k2) <==> exists|a: int| 0 <= a < i + 1 && keys@[a] == k2 by {
            if k2 == k {
                assert(keys@[i as int] == k);
            } else if exists|a: int| 0 <= a < i + 1 && keys@[a] == k2 {
                let a = choose|a: int| 0 <= a < i + 1 && keys@[a] == k2;
                assert(a != i);
            }
        }
        i = i + 1;
    }
    assert(keys@.take(n as int) == keys@);
    true
}

} // verus!
