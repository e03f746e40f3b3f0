//! Overall figures of the canonical store.

use vstd::prelude::*;
use crate::aggregate::{GroupKey, Keyed, aggregate, group_count, group_keys, is_group_of};
use crate::ranking::{as_ints, is_rank_order, rank_order};
use crate::records::{MetadataRecord, UrlRecord, VisitRecord};
use crate::store::HistoryStore;
use crate::timeline::{TimelineGrouping, TimelineParams, min_of, count_ranks, timeline_visits};
use crate::timestamp::UtcTime;

verus! {

/// Figures of the whole store.
#[derive(Debug, Clone)]
pub struct HistoryStats {
    pub url_count: usize,
    pub visit_count: usize,
    /// Distinct domains of the stored URLs.
    pub domain_count: usize,
    /// Earliest visit.
    pub first_visit: Option<UtcTime>,
    /// Most recent visit.
    pub last_visit: Option<UtcTime>,
    /// URLs whose metadata is enriched.
    pub enriched_count: usize,
    /// The domains with the most visits, most first, at most ten.
    pub top_domains: Vec<(String, usize)>,
}

/// Most domains listed in `top_domains`.
pub const TOP_DOMAIN_LIMIT: usize = 10;

/// The domains of the first `n` URLs, one item each.
pub open spec fn domain_items(urls: Seq<UrlRecord>, n: int) -> Seq<Keyed>
    decreases n,
{
    if n <= 0 {
        seq![]
    } else {
        domain_items(urls, n - 1).push(Keyed { key: GroupKey::Domain(urls[n - 1].domain), at: urls[n - 1].first_seen })
    }
}

/// Number of enriched metadata records among the first `n`.
pub open spec fn enriched(meta: Seq<MetadataRecord>, n: int) -> nat
    decreases n,
{
    if n <= 0 {
        0
    } else {
        enriched(meta, n - 1) + if meta[n - 1].is_enriched {
            1nat
        } else {
            0nat
        }
    }
}

/// Earliest and latest visit instant among the first `n` visits.
pub open spec fn visit_span(visits: Seq<VisitRecord>, n: int) -> Option<(UtcTime, UtcTime)>
    decreases n,
{
    if n <= 0 {
        None
    } else {
        let t = visits[n - 1].visited_at;
        match visit_span(visits, n - 1) {
            None => Some((t, t)),
            Some(p) => Some(
                (if t.secs < p.0.secs {
                    t
                } else {
                    p.0
                }, if t.secs > p.1.secs {
                    t
                } else {
                    p.1
                }),
            ),
        }
    }
}

/// All visits of stored URLs, grouped by domain.
pub open spec fn all_visits_by_domain() -> TimelineParams {
    TimelineParams { start_date: None, end_date: None, domain: None, group_by: TimelineGrouping::Domain }
}

pub open spec fn domain_text(k: GroupKey) -> Seq<char> {
    match k {
        GroupKey::Domain(d) => d@,
        _ => seq![],
    }
}

/// Figures of the store: counts of URLs, visits, distinct domains and enriched URLs, the
/// earliest and latest visit, and the ten domains with the most visits.
pub fn get_stats(store: &HistoryStore) -> (r: HistoryStats)
    requires
        store.wf(),
    ensures
        r.url_count == store.urls@.len(),
        r.visit_count == store.visits@.len(),
        r.domain_count == group_keys(domain_items(store.urls@, store.urls@.len() as int)).len(),
        r.enriched_count == enriched(store.metadata@, store.metadata@.len() as int),
        r.first_visit == (match visit_span(store.visits@, store.visits@.len() as int) {
            Some(p) => Some(p.0),
            None => None::<UtcTime>,
        }),
        r.last_visit == (match visit_span(store.visits@, store.visits@.len() as int) {
            Some(p) => Some(p.1),
            None => None::<UtcTime>,
        }),
        ({
            let items = timeline_visits(*store, all_visits_by_domain());
            let keys = group_keys(items);
            &&& r.top_domains@.len() == min_of(TOP_DOMAIN_LIMIT as int, keys.len() as int)
            &&& exists|order: Seq<int>|
                {
                    &&& is_rank_order(count_ranks(items), order)
                    &&& forall|m: int|
                        0 <= m < r.top_domains@.len() ==> (#[trigger] r.top_domains@[m]).0@ == domain_text(
                            keys[order[m]],
                        ) && r.top_domains@[m].1 == group_count(items, keys[order[m]])
                }
        }),
{
    // distinct domains
    let mut domains: Vec<Keyed> = Vec::new();
    let mut i: usize = 0;
    while i < store.urls.len()
        invariant
            i <= store.urls@.len(),
            domains@ == domain_items(store.urls@, i as int),
        decreases store.urls@.len() - i,
    {
        let u = &store.urls[i];
        domains.push(Keyed { key: GroupKey::Domain(u.domain.clone()), at: u.first_seen });
        i += 1;
    }
    let domain_groups = aggregate(&domains);
    // enriched metadata
    let mut enriched_count: usize = 0;
    let mut j: usize = 0;
    while j < store.metadata.len()
        invariant
            j <= store.metadata@.len(),
            enriched_count == enriched(store.metadata@, j as int),
            enriched_count <= j,
        decreases store.metadata@.len() - j,
    {
        if store.metadata[j].is_enriched {
            enriched_count += 1;
        }
        j += 1;
    }
    // first and last visit
    let mut span: Option<(UtcTime, UtcTime)> = None;
    let mut k: usize = 0;
    while k < store.visits.len()
        invariant
            k <= store.visits@.len(),
            span == visit_span(store.visits@, k as int),
        decreases store.visits@.len() - k,
    {
        let t = store.visits[k].visited_at;
        span = match span {
            None => Some((t, t)),
            Some(p) => Some(
                (if t.secs < p.0.secs {
                    t
                } else {
                    p.0
                }, if t.secs > p.1.secs {
                    t
                } else {
                    p.1
                }),
            ),
        };
        k += 1;
    }
    let (first_visit, last_visit) = match span {
        Some(p) => (Some(p.0), Some(p.1)),
        None => (None, None),
    };
    // domains by visits
    let params = TimelineParams { start_date: None, end_date: None, domain: None, group_by: TimelineGrouping::Domain };
    let items = crate::timeline::bucket_visits(store, &params);
    let groups = aggregate(&items);
    let ghost keys = group_keys(items@);
    let mut ranks: Vec<i128> = Vec::new();
    let mut g: usize = 0;
    while g < groups.len()
        invariant
            g <= groups@.len(),
            groups@.len() == keys.len(),
            forall|h: int| 0 <= h < groups@.len() ==> is_group_of(#[trigger] groups@[h], items@, keys[h]),
            ranks@.len() == g,
            forall|h: int| 0 <= h < g ==> #[trigger] ranks@[h] == group_count(items@, keys[h]) as i128,
        decreases groups@.len() - g,
    {
        ranks.push(groups[g].count as i128);
        g += 1;
    }
    assert(ranks@ =~= count_ranks(items@));
    let order = rank_order(&ranks);
    let n = if groups.len() < TOP_DOMAIN_LIMIT {
        groups.len()
    } else {
        TOP_DOMAIN_LIMIT
    };
    let mut top_domains: Vec<(String, usize)> = Vec::new();
    let mut m: usize = 0;
    while m < n
        invariant
            m <= n,
            n <= groups@.len(),
            groups@.len() == keys.len(),
            forall|h: int| 0 <= h < groups@.len() ==> is_group_of(#[trigger] groups@[h], items@, keys[h]),
            order@.len() == groups@.len(),
            is_rank_order(count_ranks(items@), as_ints(order@)),
            top_domains@.len() == m,
            forall|i: int|
                0 <= i < m ==> (#[trigger] top_domains@[i]).0@ == domain_text(keys[as_ints(order@)[i]])
                    && top_domains@[i].1 == group_count(items@, keys[as_ints(order@)[i]]),
        decreases n - m,
    {
        let gi = order[m];
        assert(as_ints(order@)[m as int] == gi as int);
        assert(0 <= as_ints(order@)[m as int] < keys.len());
        let group = &groups[gi];
        let name = match &group.key {
            GroupKey::Domain(d) => d.clone(),
            _ => String::new(),
        };
        top_domains.push((name, group.count));
        m += 1;
    }
    HistoryStats {
        url_count: store.urls.len(),
        visit_count: store.visits.len(),
        domain_count: domain_groups.len(),
        first_visit,
        last_visit,
        enriched_count,
        top_domains,
    }
}

} // verus!
