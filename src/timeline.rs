//! Timeline: visits bucketed by hour of day, calendar day or domain, each bucket with a
//! few sample URLs. The three groupings share one aggregation and differ only in the
//! bucket key of a visit and the order of the buckets.

use vstd::prelude::*;
use crate::aggregate::{
    Group,
    GroupKey,
    Keyed,
    aggregate,
    group_count,
    group_keys,
    group_span,
    is_group_of,
    keys_match,
    same_key,
};
use crate::ranking::{as_ints, is_rank_order, rank_order};
use crate::records::UrlRecord;
use crate::search::in_window;
use crate::store::{HistoryStore, url_id_taken};
use crate::timestamp::{UtcTime, day_of, hour_of};

verus! {

/// How visits are bucketed.
#[derive(Debug, Clone, Copy, PartialEq, Eq, Structural)]
pub enum TimelineGrouping {
    /// By hour of the day (UTC), whatever the date.
    Hour,
    /// By calendar day (UTC).
    Day,
    /// By domain of the visited URL.
    Domain,
}

/// Which visits to bucket, and how.
#[derive(Debug, Clone)]
pub struct TimelineParams {
    pub start_date: Option<UtcTime>,
    pub end_date: Option<UtcTime>,
    pub domain: Option<String>,
    pub group_by: TimelineGrouping,
}

/// A sample URL of a bucket, with its visits in that bucket.
#[derive(Debug, Clone)]
pub struct UrlWithVisits {
    pub url: UrlRecord,
    pub visit_count: usize,
    pub last_visit: Option<UtcTime>,
}

/// One bucket of the timeline.
#[derive(Debug, Clone)]
pub enum TimelineItem {
    Hourly {
        /// Hour of the day, 0 to 23.
        hour: u8,
        count: usize,
        /// Earliest visit of the bucket.
        timestamp: UtcTime,
        urls: Option<Vec<UrlWithVisits>>,
    },
    Daily {
        /// Earliest visit of the day.
        date: UtcTime,
        count: usize,
        urls: Option<Vec<UrlWithVisits>>,
    },
    Domain { domain: String, count: usize, urls: Option<Vec<UrlWithVisits>> },
}

/// Most buckets returned when grouping by domain.
pub const DOMAIN_BUCKET_LIMIT: usize = 100;

/// Most sample URLs per bucket.
pub const SAMPLE_URL_LIMIT: usize = 5;

// ---------------------------------------------------------------- meaning

/// The stored URL with id `id`.
pub open spec fn url_with_id(urls: Seq<UrlRecord>, id: u128) -> Option<UrlRecord> {
    if url_id_taken(urls, id) {
        Some(urls[choose|i: int| 0 <= i < urls.len() && (#[trigger] urls[i]).id == id])
    } else {
        None
    }
}

/// The bucket of a visit of `u` at `t`.
pub open spec fn bucket_key(g: TimelineGrouping, u: UrlRecord, t: UtcTime) -> GroupKey {
    match g {
        TimelineGrouping::Hour => GroupKey::Hour(hour_of(t.secs as int) as u8),
        TimelineGrouping::Day => GroupKey::Day(day_of(t.secs as int) as i64),
        TimelineGrouping::Domain => GroupKey::Domain(u.domain),
    }
}

/// The bucket of a visit, if it passes the filters: its URL is stored, it lies in the
/// window, and its URL has the domain asked for.
pub open spec fn visit_bucket(s: HistoryStore, p: TimelineParams, v: crate::records::VisitRecord) -> Option<
    GroupKey,
> {
    match url_with_id(s.urls@, v.url_id) {
        None => None,
        Some(u) => if in_window(v.visited_at, p.start_date, p.end_date) && (p.domain is None || u.domain@
            == p.domain->Some_0@) {
            Some(bucket_key(p.group_by, u, v.visited_at))
        } else {
            None
        },
    }
}

/// The first `n` visits that pass the filters, keyed by their bucket.
pub open spec fn bucket_items(s: HistoryStore, p: TimelineParams, n: int) -> Seq<Keyed>
    decreases n,
{
    if n <= 0 {
        seq![]
    } else {
        let prev = bucket_items(s, p, n - 1);
        let v = s.visits@[n - 1];
        match visit_bucket(s, p, v) {
            Some(k) => prev.push(Keyed { key: k, at: v.visited_at }),
            None => prev,
        }
    }
}

/// The first `n` visits that pass the filters and fall in bucket `k`, keyed by URL.
pub open spec fn sample_items(s: HistoryStore, p: TimelineParams, k: GroupKey, n: int) -> Seq<Keyed>
    decreases n,
{
    if n <= 0 {
        seq![]
    } else {
        let prev = sample_items(s, p, k, n - 1);
        let v = s.visits@[n - 1];
        match visit_bucket(s, p, v) {
            Some(b) => if same_key(b, k) {
                prev.push(Keyed { key: GroupKey::Url(v.url_id), at: v.visited_at })
            } else {
                prev
            },
            None => prev,
        }
    }
}

/// All visits that pass the filters, keyed by their bucket.
pub open spec fn timeline_visits(s: HistoryStore, p: TimelineParams) -> Seq<Keyed> {
    bucket_items(s, p, s.visits@.len() as int)
}

/// Buckets rank by count then earlier hour, by later day, or by count.
pub open spec fn bucket_rank(k: GroupKey, count: nat) -> i128 {
    match k {
        GroupKey::Hour(h) => (count * 24 + (23 - h)) as i128,
        GroupKey::Day(d) => d as i128,
        _ => count as i128,
    }
}

pub open spec fn bucket_ranks(items: Seq<Keyed>) -> Seq<i128> {
    group_keys(items).map_values(|k: GroupKey| bucket_rank(k, group_count(items, k)))
}

/// Sample URLs rank by their number of visits in the bucket.
pub open spec fn count_ranks(items: Seq<Keyed>) -> Seq<i128> {
    group_keys(items).map_values(|k: GroupKey| group_count(items, k) as i128)
}

pub open spec fn min_of(a: int, b: int) -> int {
    if a < b {
        a
    } else {
        b
    }
}

pub open spec fn url_id_of(k: GroupKey) -> u128 {
    match k {
        GroupKey::Url(id) => id,
        _ => 0,
    }
}

/// `samples` are the most visited URLs of bucket `k`, at most five, most visits first.
pub open spec fn samples_of(samples: Seq<UrlWithVisits>, s: HistoryStore, p: TimelineParams, k: GroupKey) -> bool {
    let si = sample_items(s, p, k, s.visits@.len() as int);
    let sg = group_keys(si);
    &&& samples.len() == min_of(SAMPLE_URL_LIMIT as int, sg.len() as int)
    &&& exists|order: Seq<int>|
        {
            &&& is_rank_order(count_ranks(si), order)
            &&& forall|m: int|
                0 <= m < samples.len() ==> #[trigger] samples[m] == (UrlWithVisits {
                    url: url_with_id(s.urls@, url_id_of(sg[order[m]]))->Some_0,
                    visit_count: group_count(si, sg[order[m]]) as usize,
                    last_visit: Some(group_span(si, sg[order[m]])->Some_0.1),
                })
        }
}

/// `item` is the bucket of key `k`.
pub open spec fn describes(item: TimelineItem, s: HistoryStore, p: TimelineParams, k: GroupKey) -> bool {
    let items = timeline_visits(s, p);
    let c = group_count(items, k);
    let first = group_span(items, k)->Some_0.0;
    match item {
        TimelineItem::Hourly { hour, count, timestamp, urls } => {
            &&& k == GroupKey::Hour(hour)
            &&& count == c
            &&& timestamp == first
            &&& urls is Some && samples_of(urls->Some_0@, s, p, k)
        },
        TimelineItem::Daily { date, count, urls } => {
            &&& k == GroupKey::Day(day_of(date.secs as int) as i64)
            &&& count == c
            &&& date == first
            &&& urls is Some && samples_of(urls->Some_0@, s, p, k)
        },
        TimelineItem::Domain { domain, count, urls } => {
            &&& k == GroupKey::Domain(domain)
            &&& count == c
            &&& urls is Some && samples_of(urls->Some_0@, s, p, k)
        },
    }
}

/// Number of buckets returned out of `n`.
pub open spec fn bucket_limit(g: TimelineGrouping, n: int) -> int {
    if g == TimelineGrouping::Domain {
        min_of(DOMAIN_BUCKET_LIMIT as int, n)
    } else {
        n
    }
}

/// `r` is the timeline of the store for `p`.
pub open spec fn is_timeline(r: Seq<TimelineItem>, s: HistoryStore, p: TimelineParams) -> bool {
    let items = timeline_visits(s, p);
    let keys = group_keys(items);
    &&& r.len() == bucket_limit(p.group_by, keys.len() as int)
    &&& exists|order: Seq<int>|
        {
            &&& is_rank_order(bucket_ranks(items), order)
            &&& forall|m: int| 0 <= m < r.len() ==> describes(#[trigger] r[m], s, p, keys[order[m]])
        }
}

// ---------------------------------------------------------------- computing

fn find_url_by_id(urls: &Vec<UrlRecord>, id: u128) -> (r: Option<usize>)
    requires
        crate::store::urls_wf(urls@),
    ensures
        r is Some <==> url_id_taken(urls@, id),
        r is Some ==> r->Some_0 < urls@.len() && Some(urls@[r->Some_0 as int]) == url_with_id(urls@, id),
{
    let mut i: usize = 0;
    while i < urls.len()
        invariant
            crate::store::urls_wf(urls@),
            i <= urls@.len(),
            forall|j: int| 0 <= j < i ==> (#[trigger] urls@[j]).id != id,
        decreases urls@.len() - i,
    {
        if urls[i].id == id {
            proof {
                let k = choose|k: int| 0 <= k < urls@.len() && (#[trigger] urls@[k]).id == id;
                assert(urls@[k].id == urls@[i as int].id);
                assert(k == i as int);
                assert(url_with_id(urls@, id) == Some(urls@[k]));
            }
            return Some(i);
        }
        i += 1;
    }
    None
}

/// The bucket of a visit, if it passes the filters.
fn passing_bucket(store: &HistoryStore, params: &TimelineParams, v: &crate::records::VisitRecord) -> (r: Option<
    GroupKey,
>)
    requires
        store.wf(),
    ensures
        r == visit_bucket(*store, *params, *v),
{
    let j = match find_url_by_id(&store.urls, v.url_id) {
        Some(j) => j,
        None => return None,
    };
    let u = &store.urls[j];
    let t = v.visited_at;
    let in_range = match params.start_date {
        Some(s) => s.secs <= t.secs,
        None => true,
    } && match params.end_date {
        Some(e) => t.secs <= e.secs,
        None => true,
    };
    let domain_ok = match &params.domain {
        Some(d) => u.domain == *d,
        None => true,
    };
    if !(in_range && domain_ok) {
        return None;
    }
    let key = match params.group_by {
        TimelineGrouping::Hour => GroupKey::Hour(t.hour_of_day()),
        TimelineGrouping::Day => GroupKey::Day(t.day_number()),
        TimelineGrouping::Domain => GroupKey::Domain(u.domain.clone()),
    };
    Some(key)
}

/// The visits that pass the filters, keyed by their bucket.
pub(crate) fn bucket_visits(store: &HistoryStore, params: &TimelineParams) -> (items: Vec<Keyed>)
    requires
        store.wf(),
    ensures
        items@ == timeline_visits(*store, *params),
{
    let mut items: Vec<Keyed> = Vec::new();
    let mut i: usize = 0;
    while i < store.visits.len()
        invariant
            store.wf(),
            i <= store.visits@.len(),
            items@ == bucket_items(*store, *params, i as int),
        decreases store.visits@.len() - i,
    {
        let v = &store.visits[i];
        match passing_bucket(store, params, v) {
            Some(k) => items.push(Keyed { key: k, at: v.visited_at }),
            None => {},
        }
        i += 1;
    }
    items
}

/// The visits that pass the filters and fall in bucket `key`, keyed by URL.
fn sample_visits(store: &HistoryStore, params: &TimelineParams, key: &GroupKey) -> (items: Vec<Keyed>)
    requires
        store.wf(),
    ensures
        items@ == sample_items(*store, *params, *key, store.visits@.len() as int),
{
    let mut items: Vec<Keyed> = Vec::new();
    let mut i: usize = 0;
    while i < store.visits.len()
        invariant
            store.wf(),
            i <= store.visits@.len(),
            items@ == sample_items(*store, *params, *key, i as int),
        decreases store.visits@.len() - i,
    {
        let v = &store.visits[i];
        match passing_bucket(store, params, v) {
            Some(b) => {
                if keys_match(&b, key) {
                    items.push(Keyed { key: GroupKey::Url(v.url_id), at: v.visited_at });
                }
            },
            None => {},
        }
        i += 1;
    }
    items
}

/// Every sample item names a stored URL.
proof fn lemma_sample_urls_stored(s: HistoryStore, p: TimelineParams, k: GroupKey, n: int)
    requires
        0 <= n <= s.visits@.len(),
    ensures
        forall|i: int|
            0 <= i < sample_items(s, p, k, n).len() ==> (#[trigger] sample_items(s, p, k, n)[i]).key is Url
                && url_id_taken(s.urls@, url_id_of(sample_items(s, p, k, n)[i].key)),
    decreases n,
{
    if n > 0 {
        lemma_sample_urls_stored(s, p, k, n - 1);
        let prev = sample_items(s, p, k, n - 1);
        let cur = sample_items(s, p, k, n);
        assert forall|i: int| 0 <= i < cur.len() implies (#[trigger] cur[i]).key is Url && url_id_taken(
            s.urls@,
            url_id_of(cur[i].key),
        ) by {
            if i < prev.len() {
                assert(cur[i] == prev[i]);
            }
        }
    }
}

/// Every bucket item of a day carries the day of its instant.
proof fn lemma_day_keys(s: HistoryStore, p: TimelineParams, n: int)
    ensures
        forall|i: int|
            0 <= i < bucket_items(s, p, n).len() && (#[trigger] bucket_items(s, p, n)[i]).key is Day ==> bucket_items(s, p, n)[i].key == GroupKey::Day(
                day_of(bucket_items(s, p, n)[i].at.secs as int) as i64,
            ),
    decreases n,
{
    if n > 0 {
        lemma_day_keys(s, p, n - 1);
        let prev = bucket_items(s, p, n - 1);
        let cur = bucket_items(s, p, n);
        assert forall|i: int| 0 <= i < cur.len() && (#[trigger] cur[i]).key is Day implies cur[i].key == GroupKey::Day(
            day_of(cur[i].at.secs as int) as i64,
        ) by {
            if i < prev.len() {
                assert(cur[i] == prev[i]);
            }
        }
    }
}

/// No bucket is keyed by URL.
proof fn lemma_bucket_keys_not_url(s: HistoryStore, p: TimelineParams, n: int)
    ensures
        forall|i: int| 0 <= i < bucket_items(s, p, n).len() ==> !((#[trigger] bucket_items(s, p, n)[i]).key is Url),
    decreases n,
{
    if n > 0 {
        lemma_bucket_keys_not_url(s, p, n - 1);
        let prev = bucket_items(s, p, n - 1);
        let cur = bucket_items(s, p, n);
        assert forall|i: int| 0 <= i < cur.len() implies !((#[trigger] cur[i]).key is Url) by {
            if i < prev.len() {
                assert(cur[i] == prev[i]);
            }
        }
    }
}

/// Up to five URLs of bucket `key` with the most visits in it, each with its number of visits
/// and most recent visit in the bucket.
pub fn fetch_sample_urls_for_timeline(store: &HistoryStore, params: &TimelineParams, key: &GroupKey) -> (r: Vec<
    UrlWithVisits,
>)
    requires
        store.wf(),
    ensures
        samples_of(r@, *store, *params, *key),
{
    let items = sample_visits(store, params, key);
    let groups = aggregate(&items);
    let ghost si = items@;
    let ghost sg = group_keys(si);
    let mut ranks: Vec<i128> = Vec::new();
    let mut g: usize = 0;
    while g < groups.len()
        invariant
            g <= groups@.len(),
            groups@.len() == sg.len(),
            forall|h: int| 0 <= h < groups@.len() ==> is_group_of(#[trigger] groups@[h], si, sg[h]),
            ranks@.len() == g,
            forall|h: int| 0 <= h < g ==> #[trigger] ranks@[h] == group_count(si, sg[h]) as i128,
        decreases groups@.len() - g,
    {
        ranks.push(groups[g].count as i128);
        g += 1;
    }
    assert(ranks@ =~= count_ranks(si));
    let order = rank_order(&ranks);
    let n = if groups.len() < SAMPLE_URL_LIMIT {
        groups.len()
    } else {
        SAMPLE_URL_LIMIT
    };
    proof {
        lemma_sample_urls_stored(*store, *params, *key, store.visits@.len() as int);
    }
    let mut samples: Vec<UrlWithVisits> = Vec::new();
    let mut m: usize = 0;
    while m < n
        invariant
            store.wf(),
            m <= n,
            n <= groups@.len(),
            groups@.len() == sg.len(),
            si == sample_items(*store, *params, *key, store.visits@.len() as int),
            sg == group_keys(si),
            forall|h: int| 0 <= h < groups@.len() ==> is_group_of(#[trigger] groups@[h], si, sg[h]),
            order@.len() == groups@.len(),
            is_rank_order(count_ranks(si), as_ints(order@)),
            forall|i: int|
                0 <= i < si.len() ==> (#[trigger] si[i]).key is Url && url_id_taken(store.urls@, url_id_of(si[i].key)),
            samples@.len() == m,
            forall|i: int|
                0 <= i < m ==> #[trigger] samples@[i] == (UrlWithVisits {
                    url: url_with_id(store.urls@, url_id_of(sg[as_ints(order@)[i]]))->Some_0,
                    visit_count: group_count(si, sg[as_ints(order@)[i]]) as usize,
                    last_visit: Some(group_span(si, sg[as_ints(order@)[i]])->Some_0.1),
                }),
        decreases n - m,
    {
        let gi = order[m];
        assert(as_ints(order@)[m as int] == gi as int);
        assert(0 <= as_ints(order@)[m as int] < sg.len());
        let group = &groups[gi];
        proof {
            crate::aggregate::lemma_group_key_of_item(si, gi as int);
        }
        let id = match group.key {
            GroupKey::Url(id) => id,
            _ => 0,
        };
        let j = match find_url_by_id(&store.urls, id) {
            Some(j) => j,
            None => {
                proof {
                    let i = choose|i: int| 0 <= i < si.len() && si[i].key == sg[gi as int];
                    assert(url_id_taken(store.urls@, url_id_of(si[i].key)));
                }
                0
            },
        };
        samples.push(
            UrlWithVisits {
                url: store.urls[j].duplicate(),
                visit_count: group.count,
                last_visit: Some(group.latest),
            },
        );
        m += 1;
    }
    samples
}

/// Buckets the visits that pass the filters: by hour (most visits first, then earlier hour),
/// by day (latest first) or by domain (most visits first, at most a hundred), each with its
/// count, its earliest visit and its sample URLs.
pub fn get_timeline_data(store: &HistoryStore, params: &TimelineParams) -> (r: Vec<TimelineItem>)
    requires
        store.wf(),
    ensures
        is_timeline(r@, *store, *params),
{
    let items = bucket_visits(store, params);
    let groups = aggregate(&items);
    let ghost keys = group_keys(items@);
    let mut ranks: Vec<i128> = Vec::new();
    let mut g: usize = 0;
    while g < groups.len()
        invariant
            g <= groups@.len(),
            groups@.len() == keys.len(),
            forall|h: int| 0 <= h < groups@.len() ==> is_group_of(#[trigger] groups@[h], items@, keys[h]),
            ranks@.len() == g,
            forall|h: int| 0 <= h < g ==> #[trigger] ranks@[h] == bucket_rank(keys[h], group_count(items@, keys[h])),
        decreases groups@.len() - g,
    {
        let group = &groups[g];
        let rank: i128 = match group.key {
            GroupKey::Hour(h) => (group.count as i128) * 24 + (23 - (h as i128)),
            GroupKey::Day(d) => d as i128,
            _ => group.count as i128,
        };
        ranks.push(rank);
        g += 1;
    }
    assert(ranks@ =~= bucket_ranks(items@));
    let order = rank_order(&ranks);
    let n = if params.group_by == TimelineGrouping::Domain && groups.len() > DOMAIN_BUCKET_LIMIT {
        DOMAIN_BUCKET_LIMIT
    } else {
        groups.len()
    };
    proof {
        lemma_day_keys(*store, *params, store.visits@.len() as int);
        lemma_bucket_keys_not_url(*store, *params, store.visits@.len() as int);
    }
    let mut timeline: Vec<TimelineItem> = Vec::new();
    let mut m: usize = 0;
    while m < n
        invariant
            store.wf(),
            m <= n,
            n <= groups@.len(),
            groups@.len() == keys.len(),
            items@ == timeline_visits(*store, *params),
            keys == group_keys(items@),
            forall|h: int| 0 <= h < groups@.len() ==> is_group_of(#[trigger] groups@[h], items@, keys[h]),
            order@.len() == groups@.len(),
            is_rank_order(bucket_ranks(items@), as_ints(order@)),
            forall|i: int| 0 <= i < items@.len() ==> !((#[trigger] items@[i]).key is Url),
            forall|i: int|
                0 <= i < items@.len() && (#[trigger] items@[i]).key is Day ==> items@[i].key == GroupKey::Day(
                    day_of(items@[i].at.secs as int) as i64,
                ),
            timeline@.len() == m,
            forall|i: int|
                0 <= i < m ==> describes(#[trigger] timeline@[i], *store, *params, keys[as_ints(order@)[i]]),
        decreases n - m,
    {
        let gi = order[m];
        assert(as_ints(order@)[m as int] == gi as int);
        assert(0 <= as_ints(order@)[m as int] < keys.len());
        let group = &groups[gi];
        let samples = fetch_sample_urls_for_timeline(store, params, &group.key);
        proof {
            crate::aggregate::lemma_group_key_of_item(items@, gi as int);
            crate::aggregate::lemma_earliest_of_item(items@, keys[gi as int]);
        }
        let item = match &group.key {
            GroupKey::Hour(h) => TimelineItem::Hourly {
                hour: *h,
                count: group.count,
                timestamp: group.earliest,
                urls: Some(samples),
            },
            GroupKey::Day(_) => TimelineItem::Daily {
                date: group.earliest,
                count: group.count,
                urls: Some(samples),
            },
            GroupKey::Domain(d) => TimelineItem::Domain {
                domain: d.clone(),
                count: group.count,
                urls: Some(samples),
            },
            GroupKey::Url(_) => TimelineItem::Domain {
                domain: String::new(),
                count: group.count,
                urls: Some(samples),
            },
        };
        proof {
            let i = choose|i: int| 0 <= i < items@.len() && items@[i].key == keys[gi as int];
            if keys[gi as int] is Day {
                let e = choose|e: int|
                    0 <= e < items@.len() && same_key(items@[e].key, keys[gi as int]) && items@[e].at
                        == group_span(items@, keys[gi as int])->Some_0.0;
                assert(items@[e].key == GroupKey::Day(day_of(items@[e].at.secs as int) as i64));
            }
            assert(is_group_of(groups@[gi as int], items@, keys[gi as int]));
            assert(describes(item, *store, *params, keys[gi as int]));
        }
        timeline.push(item);
        m += 1;
    }
    timeline
}

} // verus!
