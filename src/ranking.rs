//! Ordering of result rows by a key, highest first, earlier rows first among equal keys.

use vstd::prelude::*;

verus! {

/// Row `a` comes before row `b`: a higher key, or the same key and an earlier row.
pub open spec fn ranks_before(keys: Seq<i128>, a: int, b: int) -> bool {
    keys[a] > keys[b] || (keys[a] == keys[b] && a < b)
}

/// `order` lists every row index of `keys` once, best ranked first.
pub open spec fn is_rank_order(keys: Seq<i128>, order: Seq<int>) -> bool {
    &&& order.len() == keys.len()
    &&& forall|i: int| 0 <= i < order.len() ==> 0 <= #[trigger] order[i] < keys.len()
    &&& forall|i: int, j: int|
        0 <= i < j < order.len() ==> ranks_before(keys, #[trigger] order[i], #[trigger] order[j])
    &&& forall|x: int| 0 <= x < keys.len() ==> #[trigger] order.contains(x)
}

pub open spec fn as_ints(v: Seq<usize>) -> Seq<int> {
    v.map_values(|x: usize| x as int)
}

/// Row indices of `keys`, best ranked first.
pub fn rank_order(keys: &Vec<i128>) -> (order: Vec<usize>)
    ensures
        is_rank_order(keys@, as_ints(order@)),
{
    let n = keys.len();
    let mut order: Vec<usize> = Vec::new();
    let mut k: usize = 0;
    while k < n
        invariant
            n == keys@.len(),
            k <= n,
            order@.len() == k,
            forall|i: int| 0 <= i < k ==> #[trigger] order@[i] < k,
            forall|i: int, j: int|
                0 <= i < j < k ==> ranks_before(keys@, #[trigger] order@[i] as int, #[trigger] order@[j] as int),
            forall|x: usize| x < k ==> #[trigger] order@.contains(x),
        decreases n - k,
    {
        let mut p: usize = 0;
        while p < k && keys[order[p]] >= keys[k]
            invariant
                n == keys@.len(),
                k < n,
                order@.len() == k,
                p <= k,
                forall|i: int| 0 <= i < k ==> #[trigger] order@[i] < k,
                forall|i: int| 0 <= i < p ==> keys@[#[trigger] order@[i] as int] >= keys@[k as int],
            decreases k - p,
        {
            p += 1;
        }
        let ghost old_order = order@;
        order.insert(p, k);
        proof {
            old_order.insert_ensures(p as int, k);
            assert forall|i: int, j: int|
                0 <= i < j < k + 1 implies ranks_before(
                keys@,
                #[trigger] order@[i] as int,
                #[trigger] order@[j] as int,
            ) by {
                if j < p {
                    assert(order@[i] == old_order[i] && order@[j] == old_order[j]);
                } else if j == p {
                    assert(order@[i] == old_order[i]);
                    assert(keys@[old_order[i] as int] >= keys@[k as int]);
                } else if i < p {
                    assert(order@[i] == old_order[i] && order@[j] == old_order[j - 1]);
                } else if i == p {
                    assert(order@[j] == old_order[j - 1]);
                    assert(keys@[old_order[p as int] as int] < keys@[k as int]);
                    if j - 1 > p {
                        assert(ranks_before(keys@, old_order[p as int] as int, old_order[j - 1] as int));
                    }
                } else {
                    assert(order@[i] == old_order[i - 1] && order@[j] == old_order[j - 1]);
                }
            }
            assert forall|x: usize| x < k + 1 implies #[trigger] order@.contains(x) by {
                if x == k {
                    assert(order@[p as int] == k);
                } else {
                    assert(old_order.contains(x));
                    let i = choose|i: int| 0 <= i < k && old_order[i] == x;
                    if i < p {
                        assert(order@[i] == x);
                    } else {
                        assert(order@[i + 1] == x);
                    }
                }
            }
            assert forall|i: int| 0 <= i < k + 1 implies #[trigger] order@[i] < k + 1 by {
                if i < p {
                    assert(order@[i] == old_order[i]);
                } else if i > p {
                    assert(order@[i] == old_order[i - 1]);
                }
            }
        }
        k += 1;
    }
    proof {
        let o = as_ints(order@);
        assert forall|x: int| 0 <= x < keys@.len() implies #[trigger] o.contains(x) by {
            assert(order@.contains(x as usize));
            let i = choose|i: int| 0 <= i < n && order@[i] == x as usize;
            assert(o[i] == x);
        }
    }
    order
}

} // verus!
