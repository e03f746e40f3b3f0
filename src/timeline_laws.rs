//! The hour and day timelines account for every visit that passes the filters.

use vstd::prelude::*;
use crate::aggregate::{Keyed, GroupKey, group_count, group_keys, listed, same_key};
use crate::ranking::{is_rank_order, ranks_before};
use crate::store::HistoryStore;
use crate::timeline::{TimelineGrouping, TimelineItem, TimelineParams, describes, is_timeline, timeline_visits};

verus! {

/// Number of visits a bucket reports.
pub open spec fn item_count(item: TimelineItem) -> nat {
    match item {
        TimelineItem::Hourly { count, .. } => count as nat,
        TimelineItem::Daily { count, .. } => count as nat,
        TimelineItem::Domain { count, .. } => count as nat,
    }
}

/// Sum of the counts of the buckets.
pub open spec fn total_count(items: Seq<TimelineItem>) -> nat
    decreases items.len(),
{
    if items.len() == 0 {
        0
    } else {
        total_count(items.drop_last()) + item_count(items.last())
    }
}

/// Sum of the group sizes of `keys` over `items`.
pub open spec fn sum_counts(items: Seq<Keyed>, keys: Seq<GroupKey>) -> nat
    decreases keys.len(),
{
    if keys.len() == 0 {
        0
    } else {
        sum_counts(items, keys.drop_last()) + group_count(items, keys.last())
    }
}

/// Number of `keys` that are the same as `k`.
pub open spec fn count_same(keys: Seq<GroupKey>, k: GroupKey) -> nat
    decreases keys.len(),
{
    if keys.len() == 0 {
        0
    } else {
        count_same(keys.drop_last(), k) + if same_key(keys.last(), k) {
            1nat
        } else {
            0nat
        }
    }
}

pub open spec fn distinct_keys(keys: Seq<GroupKey>) -> bool {
    forall|a: int, b: int|
        0 <= a < keys.len() && 0 <= b < keys.len() && a != b ==> !same_key(#[trigger] keys[a], #[trigger] keys[b])
}

proof fn lemma_sum_counts_push(items: Seq<Keyed>, x: Keyed, keys: Seq<GroupKey>)
    ensures
        sum_counts(items.push(x), keys) == sum_counts(items, keys) + count_same(keys, x.key),
    decreases keys.len(),
{
    if keys.len() > 0 {
        lemma_sum_counts_push(items, x, keys.drop_last());
        assert(items.push(x).drop_last() =~= items);
        let k = keys.last();
        assert(same_key(x.key, k) == same_key(k, x.key));
    }
}

proof fn lemma_count_same_absent(keys: Seq<GroupKey>, k: GroupKey)
    requires
        !listed(keys, k),
    ensures
        count_same(keys, k) == 0,
    decreases keys.len(),
{
    if keys.len() > 0 {
        assert(!listed(keys.drop_last(), k)) by {
            if listed(keys.drop_last(), k) {
                let i = choose|i: int| 0 <= i < keys.drop_last().len() && same_key(#[trigger] keys.drop_last()[i], k);
                assert(same_key(keys[i], k));
            }
        }
        lemma_count_same_absent(keys.drop_last(), k);
        assert(!same_key(keys[keys.len() - 1], k));
    }
}

proof fn lemma_count_same_once(keys: Seq<GroupKey>, k: GroupKey)
    requires
        distinct_keys(keys),
        listed(keys, k),
    ensures
        count_same(keys, k) == 1,
    decreases keys.len(),
{
    let last = keys.len() - 1;
    let init = keys.drop_last();
    assert(distinct_keys(init)) by {
        assert forall|a: int, b: int|
            0 <= a < init.len() && 0 <= b < init.len() && a != b implies !same_key(
            #[trigger] init[a],
            #[trigger] init[b],
        ) by {
            assert(!same_key(keys[a], keys[b]));
        }
    }
    if same_key(keys[last], k) {
        assert(!listed(init, k)) by {
            if listed(init, k) {
                let i = choose|i: int| 0 <= i < init.len() && same_key(#[trigger] init[i], k);
                assert(!same_key(keys[i], keys[last]));
                assert(same_key(keys[i], k));
            }
        }
        lemma_count_same_absent(init, k);
    } else {
        assert(listed(init, k)) by {
            let i = choose|i: int| 0 <= i < keys.len() && same_key(#[trigger] keys[i], k);
            assert(i != last);
            assert(same_key(init[i], k));
        }
        lemma_count_same_once(init, k);
    }
}

/// The keys of the groups are distinct, and every group adds up: together the groups hold
/// every item once.
pub proof fn lemma_groups_cover(items: Seq<Keyed>)
    ensures
        distinct_keys(group_keys(items)),
        sum_counts(items, group_keys(items)) == items.len(),
    decreases items.len(),
{
    if items.len() > 0 {
        let init = items.drop_last();
        let x = items.last();
        let prev = group_keys(init);
        lemma_groups_cover(init);
        assert(items =~= init.push(x));
        lemma_sum_counts_push(init, x, prev);
        if listed(prev, x.key) {
            lemma_count_same_once(prev, x.key);
        } else {
            lemma_count_same_absent(prev, x.key);
            crate::aggregate::lemma_unlisted_count(init, x.key);
            let keys = prev.push(x.key);
            assert(keys.drop_last() =~= prev);
            assert(distinct_keys(keys)) by {
                assert forall|a: int, b: int|
                    0 <= a < keys.len() && 0 <= b < keys.len() && a != b implies !same_key(
                    #[trigger] keys[a],
                    #[trigger] keys[b],
                ) by {
                    if a < prev.len() && b < prev.len() {
                    } else if a < prev.len() {
                        assert(!same_key(prev[a], x.key));
                    } else {
                        assert(!same_key(prev[b], x.key));
                    }
                }
            }
            lemma_sum_counts_push(init, x, keys);
            assert(count_same(keys, x.key) == 1) by {
                lemma_count_same_absent(prev, x.key);
            }
            assert(sum_counts(init, keys) == sum_counts(init, prev) + group_count(init, x.key));
        }
    }
}

/// Sum of `f` at the positions `idx`.
pub open spec fn sum_at(f: Seq<nat>, idx: Seq<int>) -> nat
    decreases idx.len(),
{
    if idx.len() == 0 {
        0
    } else {
        sum_at(f, idx.drop_last()) + f[idx.last()]
    }
}

proof fn lemma_sum_at_remove(f: Seq<nat>, idx: Seq<int>, p: int)
    requires
        0 <= p < idx.len(),
    ensures
        sum_at(f, idx) == sum_at(f, idx.remove(p)) + f[idx[p]],
    decreases idx.len(),
{
    if p < idx.len() - 1 {
        lemma_sum_at_remove(f, idx.drop_last(), p);
        assert(idx.remove(p).drop_last() =~= idx.drop_last().remove(p));
        assert(idx.remove(p).last() == idx.last());
    } else {
        assert(idx.remove(p) =~= idx.drop_last());
    }
}

proof fn lemma_sum_at_prefix(f: Seq<nat>, g: Seq<nat>, idx: Seq<int>)
    requires
        forall|i: int| 0 <= i < idx.len() ==> 0 <= #[trigger] idx[i] < g.len() && g.len() <= f.len(),
        forall|x: int| 0 <= x < g.len() ==> f[x] == g[x],
    ensures
        sum_at(f, idx) == sum_at(g, idx),
    decreases idx.len(),
{
    if idx.len() > 0 {
        lemma_sum_at_prefix(f, g, idx.drop_last());
        assert(0 <= idx[idx.len() - 1] < g.len());
    }
}

/// Summing over a permutation of the positions is summing over the positions.
proof fn lemma_sum_at_permutation(f: Seq<nat>, idx: Seq<int>)
    requires
        idx.len() == f.len(),
        forall|i: int| 0 <= i < idx.len() ==> 0 <= #[trigger] idx[i] < f.len(),
        forall|i: int, j: int| 0 <= i < j < idx.len() ==> #[trigger] idx[i] != #[trigger] idx[j],
    ensures
        sum_at(f, idx) == sum_at(f, Seq::new(f.len(), |x: int| x)),
    decreases f.len(),
{
    let n = f.len() as int;
    let all = Seq::new(f.len(), |x: int| x);
    if n > 0 {
        // the position of the last index
        let p = choose_position(idx, n - 1);
        let rest = idx.remove(p);
        let g = f.drop_last();
        assert forall|i: int| 0 <= i < rest.len() implies 0 <= #[trigger] rest[i] < g.len() by {
            if i < p {
                assert(rest[i] == idx[i]);
                assert(idx[i] != idx[p]);
            } else {
                assert(rest[i] == idx[i + 1]);
                assert(idx[p] != idx[i + 1]);
            }
        }
        assert forall|i: int, j: int| 0 <= i < j < rest.len() implies #[trigger] rest[i] != #[trigger] rest[j] by {
            let i2 = if i < p { i } else { i + 1 };
            let j2 = if j < p { j } else { j + 1 };
            assert(rest[i] == idx[i2] && rest[j] == idx[j2]);
        }
        lemma_sum_at_remove(f, idx, p);
        lemma_sum_at_prefix(f, g, rest);
        lemma_sum_at_permutation(g, rest);
        let all_g = Seq::new(g.len(), |x: int| x);
        assert(all.drop_last() =~= all_g);
        lemma_sum_at_prefix(f, g, all_g);
    }
}

/// Where `n` stands in a permutation of `0..len`.
proof fn choose_position(idx: Seq<int>, n: int) -> (p: int)
    requires
        0 <= n < idx.len(),
        forall|i: int| 0 <= i < idx.len() ==> 0 <= #[trigger] idx[i] < idx.len(),
        forall|i: int, j: int| 0 <= i < j < idx.len() ==> #[trigger] idx[i] != #[trigger] idx[j],
    ensures
        0 <= p < idx.len(),
        idx[p] == n,
{
    if !idx.contains(n) {
        lemma_missing_value(idx, n);
    }
    choose|p: int| 0 <= p < idx.len() && idx[p] == n
}

/// `len` distinct values below `len` take every value below `len`.
proof fn lemma_missing_value(idx: Seq<int>, n: int)
    requires
        0 <= n < idx.len(),
        forall|i: int| 0 <= i < idx.len() ==> 0 <= #[trigger] idx[i] < idx.len(),
        forall|i: int, j: int| 0 <= i < j < idx.len() ==> #[trigger] idx[i] != #[trigger] idx[j],
    ensures
        idx.contains(n),
{
    let s = idx.to_set();
    idx.unique_seq_to_set();
    if !idx.contains(n) {
        let full = Set::new(|x: int| 0 <= x < idx.len());
        assert(s.subset_of(full.remove(n)));
        vstd::set_lib::lemma_int_range(0, idx.len() as int);
        assert(full =~= vstd::set_lib::set_int_range(0, idx.len() as int));
        vstd::set_lib::lemma_len_subset(s, full.remove(n));
    }
}

proof fn lemma_sum_at_range(items: Seq<Keyed>, keys: Seq<GroupKey>, f: Seq<nat>, k: int)
    requires
        0 <= k <= keys.len(),
        f.len() == keys.len(),
        forall|x: int| 0 <= x < keys.len() ==> #[trigger] f[x] == group_count(items, keys[x]),
    ensures
        sum_at(f, Seq::new(k as nat, |x: int| x)) == sum_counts(items, keys.subrange(0, k)),
    decreases k,
{
    if k > 0 {
        lemma_sum_at_range(items, keys, f, k - 1);
        assert(Seq::new(k as nat, |x: int| x).drop_last() =~= Seq::new((k - 1) as nat, |x: int| x));
        assert(keys.subrange(0, k).drop_last() =~= keys.subrange(0, k - 1));
    }
}

proof fn lemma_total_is_sum_at(r: Seq<TimelineItem>, f: Seq<nat>, order: Seq<int>, m: int)
    requires
        0 <= m <= r.len(),
        r.len() <= order.len(),
        forall|i: int| 0 <= i < r.len() ==> item_count(#[trigger] r[i]) == f[order[i]],
    ensures
        total_count(r.subrange(0, m)) == sum_at(f, order.subrange(0, m)),
    decreases m,
{
    if m > 0 {
        lemma_total_is_sum_at(r, f, order, m - 1);
        assert(r.subrange(0, m).drop_last() =~= r.subrange(0, m - 1));
        assert(order.subrange(0, m).drop_last() =~= order.subrange(0, m - 1));
    }
}

/// With hours or days as buckets, the counts of the buckets add up to the number of visits
/// that pass the filters: bucketing drops no visit and counts none twice.
pub proof fn lemma_timeline_counts_every_visit(s: HistoryStore, p: TimelineParams, r: Seq<TimelineItem>)
    requires
        is_timeline(r, s, p),
        p.group_by != TimelineGrouping::Domain,
    ensures
        total_count(r) == timeline_visits(s, p).len(),
{
    let items = timeline_visits(s, p);
    let keys = group_keys(items);
    let n = keys.len() as int;
    let order = choose|order: Seq<int>|
        {
            &&& is_rank_order(crate::timeline::bucket_ranks(items), order)
            &&& forall|m: int| 0 <= m < r.len() ==> describes(#[trigger] r[m], s, p, keys[order[m]])
        };
    let f = Seq::new(keys.len(), |x: int| group_count(items, keys[x]));
    assert forall|i: int| 0 <= i < r.len() implies item_count(#[trigger] r[i]) == f[order[i]] by {
        assert(describes(r[i], s, p, keys[order[i]]));
        assert(0 <= order[i] < n);
    }
    lemma_total_is_sum_at(r, f, order, n);
    assert(r.subrange(0, n) =~= r);
    assert(order.subrange(0, n) =~= order);
    assert forall|i: int, j: int| 0 <= i < j < order.len() implies #[trigger] order[i] != #[trigger] order[j] by {
        assert(ranks_before(crate::timeline::bucket_ranks(items), order[i], order[j]));
    }
    lemma_sum_at_permutation(f, order);
    lemma_sum_at_range(items, keys, f, n);
    assert(keys.subrange(0, n) =~= keys);
    lemma_groups_cover(items);
}

} // verus!
