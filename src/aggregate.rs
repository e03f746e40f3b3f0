//! Grouping of keyed instants: one group per distinct key, in order of first appearance,
//! with its size, earliest and latest instant.

use vstd::prelude::*;
use crate::timestamp::UtcTime;

verus! {

/// What a group is keyed by.
#[derive(Debug, Clone)]
pub enum GroupKey {
    /// Hour of the day, 0 to 23.
    Hour(u8),
    /// Days since 1970-01-01.
    Day(i64),
    Domain(String),
    /// A stored URL, by id.
    Url(u128),
}

pub open spec fn same_key(a: GroupKey, b: GroupKey) -> bool {
    match (a, b) {
        (GroupKey::Hour(x), GroupKey::Hour(y)) => x == y,
        (GroupKey::Day(x), GroupKey::Day(y)) => x == y,
        (GroupKey::Domain(x), GroupKey::Domain(y)) => x@ == y@,
        (GroupKey::Url(x), GroupKey::Url(y)) => x == y,
        _ => false,
    }
}

/// An instant filed under a key.
#[derive(Debug, Clone)]
pub struct Keyed {
    pub key: GroupKey,
    pub at: UtcTime,
}

/// One group of keyed instants.
#[derive(Debug, Clone)]
pub struct Group {
    pub key: GroupKey,
    pub count: usize,
    pub earliest: UtcTime,
    pub latest: UtcTime,
}

pub open spec fn listed(keys: Seq<GroupKey>, k: GroupKey) -> bool {
    exists|i: int| 0 <= i < keys.len() && same_key(#[trigger] keys[i], k)
}

/// The distinct keys of `items`, in order of first appearance.
pub open spec fn group_keys(items: Seq<Keyed>) -> Seq<GroupKey>
    decreases items.len(),
{
    if items.len() == 0 {
        seq![]
    } else {
        let prev = group_keys(items.drop_last());
        if listed(prev, items.last().key) {
            prev
        } else {
            prev.push(items.last().key)
        }
    }
}

/// Number of items under key `k`.
pub open spec fn group_count(items: Seq<Keyed>, k: GroupKey) -> nat
    decreases items.len(),
{
    if items.len() == 0 {
        0
    } else {
        group_count(items.drop_last(), k) + if same_key(items.last().key, k) {
            1nat
        } else {
            0nat
        }
    }
}

/// Earliest and latest instant under key `k`, if any item has it.
pub open spec fn group_span(items: Seq<Keyed>, k: GroupKey) -> Option<(UtcTime, UtcTime)>
    decreases items.len(),
{
    if items.len() == 0 {
        None
    } else {
        let prev = group_span(items.drop_last(), k);
        let t = items.last().at;
        if same_key(items.last().key, k) {
            match prev {
                Some(p) => Some(
                    (
                        if t.secs < p.0.secs {
                            t
                        } else {
                            p.0
                        },
                        if t.secs > p.1.secs {
                            t
                        } else {
                            p.1
                        },
                    ),
                ),
                None => Some((t, t)),
            }
        } else {
            prev
        }
    }
}

/// `g` is the group of key `k` over `items`.
pub open spec fn is_group_of(g: Group, items: Seq<Keyed>, k: GroupKey) -> bool {
    &&& g.key == k
    &&& g.count == group_count(items, k)
    &&& group_span(items, k) == Some((g.earliest, g.latest))
}

pub fn keys_match(a: &GroupKey, b: &GroupKey) -> (r: bool)
    ensures
        r == same_key(*a, *b),
{
    match (a, b) {
        (GroupKey::Hour(x), GroupKey::Hour(y)) => *x == *y,
        (GroupKey::Day(x), GroupKey::Day(y)) => *x == *y,
        (GroupKey::Domain(x), GroupKey::Domain(y)) => *x == *y,
        (GroupKey::Url(x), GroupKey::Url(y)) => *x == *y,
        _ => false,
    }
}

impl GroupKey {
    pub fn duplicate(&self) -> (r: GroupKey)
        ensures
            r == *self,
    {
        match self {
            GroupKey::Hour(h) => GroupKey::Hour(*h),
            GroupKey::Day(d) => GroupKey::Day(*d),
            GroupKey::Domain(s) => GroupKey::Domain(s.clone()),
            GroupKey::Url(id) => GroupKey::Url(*id),
        }
    }
}

proof fn lemma_same_key_equiv(a: GroupKey, b: GroupKey, c: GroupKey)
    ensures
        same_key(a, a),
        same_key(a, b) ==> same_key(b, a),
        same_key(a, b) && same_key(b, c) ==> same_key(a, c),
{
}

/// Groups `items` by key: one group per distinct key, in order of first appearance.
pub fn aggregate(items: &Vec<Keyed>) -> (groups: Vec<Group>)
    ensures
        groups@.len() == group_keys(items@).len(),
        forall|g: int|
            0 <= g < groups@.len() ==> is_group_of(#[trigger] groups@[g], items@, group_keys(items@)[g]),
{
    let mut groups: Vec<Group> = Vec::new();
    let mut i: usize = 0;
    while i < items.len()
        invariant
            i <= items@.len(),
            groups@.len() == group_keys(items@.subrange(0, i as int)).len(),
            forall|g: int|
                0 <= g < groups@.len() ==> is_group_of(
                    #[trigger] groups@[g],
                    items@.subrange(0, i as int),
                    group_keys(items@.subrange(0, i as int))[g],
                ),
            forall|a: int, b: int|
                0 <= a < groups@.len() && 0 <= b < groups@.len() && a != b ==> !same_key(
                    #[trigger] groups@[a].key,
                    #[trigger] groups@[b].key,
                ),
            forall|g: int| 0 <= g < groups@.len() ==> #[trigger] groups@[g].count <= i,
        decreases items@.len() - i,
    {
        let ghost prefix = items@.subrange(0, i as int);
        let ghost next = items@.subrange(0, i + 1);
        assert(next.drop_last() =~= prefix);
        let item = &items[i];
        let ghost k = item.key;
        let mut g: usize = 0;
        let mut found = false;
        while g < groups.len()
            invariant_except_break
                !found,
            invariant
                g <= groups@.len(),
                k == item.key,
                forall|h: int| 0 <= h < g ==> !same_key(#[trigger] groups@[h].key, k),
            ensures
                found ==> g < groups@.len() && same_key(groups@[g as int].key, k),
                !found ==> g == groups@.len(),
            decreases groups@.len() - g,
        {
            if keys_match(&groups[g].key, &item.key) {
                found = true;
                break;
            }
            g += 1;
        }
        let ghost old_groups = groups@;
        if found {
            let old = &groups[g];
            let t = item.at;
            let updated = Group {
                key: old.key.duplicate(),
                count: old.count + 1,
                earliest: if t.secs < old.earliest.secs {
                    t
                } else {
                    old.earliest
                },
                latest: if t.secs > old.latest.secs {
                    t
                } else {
                    old.latest
                },
            };
            groups.set(g, updated);
            proof {
                assert(listed(group_keys(prefix), k)) by {
                    assert(same_key(group_keys(prefix)[g as int], k));
                }
                assert forall|h: int| 0 <= h < groups@.len() implies is_group_of(
                    #[trigger] groups@[h],
                    next,
                    group_keys(next)[h],
                ) by {
                    lemma_same_key_equiv(old_groups[h].key, old_groups[g as int].key, k);
                    lemma_same_key_equiv(old_groups[h].key, k, old_groups[g as int].key);
                }
            }
        } else {
            let t = item.at;
            groups.push(Group { key: item.key.duplicate(), count: 1, earliest: t, latest: t });
            proof {
                assert(!listed(group_keys(prefix), k)) by {
                    if listed(group_keys(prefix), k) {
                        let h = choose|h: int|
                            0 <= h < group_keys(prefix).len() && same_key(#[trigger] group_keys(prefix)[h], k);
                        assert(!same_key(old_groups[h].key, k));
                    }
                }
                let n = old_groups.len() as int;
                assert(group_count(prefix, k) == 0) by {
                    lemma_unlisted_count(prefix, k);
                }
                assert(group_span(prefix, k) is None) by {
                    lemma_unlisted_count(prefix, k);
                }
                assert forall|h: int| 0 <= h < groups@.len() implies is_group_of(
                    #[trigger] groups@[h],
                    next,
                    group_keys(next)[h],
                ) by {
                    if h < n {
                        lemma_same_key_equiv(old_groups[h].key, k, k);
                    }
                }
                assert forall|a: int, b: int|
                    0 <= a < groups@.len() && 0 <= b < groups@.len() && a != b implies !same_key(
                    #[trigger] groups@[a].key,
                    #[trigger] groups@[b].key,
                ) by {
                    lemma_same_key_equiv(groups@[a].key, groups@[b].key, k);
                    lemma_same_key_equiv(k, groups@[a].key, groups@[b].key);
                }
            }
        }
        i += 1;
    }
    assert(items@.subrange(0, items@.len() as int) =~= items@);
    groups
}

/// A key that no item has: it has no group, no item and no span.
pub(crate) proof fn lemma_unlisted_count(items: Seq<Keyed>, k: GroupKey)
    requires
        !listed(group_keys(items), k),
    ensures
        group_count(items, k) == 0,
        group_span(items, k) is None,
    decreases items.len(),
{
    if items.len() > 0 {
        let prev = group_keys(items.drop_last());
        if listed(prev, k) {
            let h = choose|h: int| 0 <= h < prev.len() && same_key(#[trigger] prev[h], k);
            assert(group_keys(items)[h] == prev[h]);
        }
        lemma_unlisted_count(items.drop_last(), k);
        if same_key(items.last().key, k) {
            if listed(prev, items.last().key) {
                let h = choose|h: int| 0 <= h < prev.len() && same_key(#[trigger] prev[h], items.last().key);
                lemma_same_key_equiv(prev[h], items.last().key, k);
                assert(group_keys(items)[h] == prev[h]);
            } else {
                assert(group_keys(items)[prev.len() as int] == items.last().key);
            }
        }
    }
}

/// Every group key is the key of some item.
pub proof fn lemma_group_key_of_item(items: Seq<Keyed>, g: int)
    requires
        0 <= g < group_keys(items).len(),
    ensures
        exists|i: int| 0 <= i < items.len() && items[i].key == group_keys(items)[g],
    decreases items.len(),
{
    let prev = group_keys(items.drop_last());
    if g < prev.len() {
        lemma_group_key_of_item(items.drop_last(), g);
        let i = choose|i: int| 0 <= i < items.drop_last().len() && items.drop_last()[i].key == prev[g];
        assert(items[i] == items.drop_last()[i]);
    } else {
        assert(items[items.len() - 1].key == group_keys(items)[g]);
    }
}

/// The earliest instant of a group is the instant of one of its items.
pub proof fn lemma_earliest_of_item(items: Seq<Keyed>, k: GroupKey)
    requires
        group_span(items, k) is Some,
    ensures
        exists|i: int|
            0 <= i < items.len() && same_key(items[i].key, k) && items[i].at == group_span(items, k)->Some_0.0,
    decreases items.len(),
{
    let prev = group_span(items.drop_last(), k);
    let last = items.len() - 1;
    if same_key(items[last].key, k) && (prev is None || items[last].at.secs < prev->Some_0.0.secs) {
    } else {
        lemma_earliest_of_item(items.drop_last(), k);
        let i = choose|i: int|
            0 <= i < items.drop_last().len() && same_key(items.drop_last()[i].key, k) && items.drop_last()[i].at
                == prev->Some_0.0;
        assert(items[i] == items.drop_last()[i]);
    }
}

} // verus!
