//! Search: URLs matching a text, a domain and a date window, with their visit aggregates,
//! most recent first, one page at a time.

use vstd::prelude::*;
use crate::ranking::{is_rank_order, rank_order};
use crate::records::{MetadataRecord, UrlRecord, VisitRecord};
use crate::store::{HistoryStore, find_metadata, has_metadata, metadata_index};
use crate::text_match::{chars_of, contains_folded, contains_ignoring_case};
use crate::timestamp::UtcTime;

verus! {

/// What to search for; every filter is optional and all of them must hold.
#[derive(Debug, Clone)]
pub struct SearchParams {
    /// Text to find in the URL, title, summary, keywords or tags (ASCII letter case aside).
    pub query: Option<String>,
    /// Exact domain.
    pub domain: Option<String>,
    /// Earliest visit instant, inclusive.
    pub start_date: Option<UtcTime>,
    /// Latest visit instant, inclusive.
    pub end_date: Option<UtcTime>,
    /// Most rows to return.
    pub limit: Option<usize>,
    /// Rows to pass over before the first one returned.
    pub offset: Option<usize>,
}

/// A URL that matched, with its visits in the window.
#[derive(Debug, Clone)]
pub struct SearchResult {
    pub url: UrlRecord,
    pub metadata: Option<MetadataRecord>,
    /// Visits of the URL in the date window.
    pub visit_count: usize,
    /// Most recent of those visits.
    pub last_visit: Option<UtcTime>,
}

/// One page of results, and how many URLs matched in all.
#[derive(Debug, Clone)]
pub struct SearchResults {
    pub urls: Vec<SearchResult>,
    pub total_count: usize,
}

// ---------------------------------------------------------------- meaning

/// The instant lies in the inclusive window.
pub open spec fn in_window(t: UtcTime, start: Option<UtcTime>, end: Option<UtcTime>) -> bool {
    &&& (start is None || start->Some_0.secs <= t.secs)
    &&& (end is None || t.secs <= end->Some_0.secs)
}

/// A visit of URL `url_id` in the window.
pub open spec fn counts(v: VisitRecord, url_id: u128, start: Option<UtcTime>, end: Option<UtcTime>) -> bool {
    v.url_id == url_id && in_window(v.visited_at, start, end)
}

/// Number of visits of URL `url_id` in the window.
pub open spec fn window_count(
    visits: Seq<VisitRecord>,
    url_id: u128,
    start: Option<UtcTime>,
    end: Option<UtcTime>,
) -> nat
    decreases visits.len(),
{
    if visits.len() == 0 {
        0
    } else {
        window_count(visits.drop_last(), url_id, start, end) + if counts(visits.last(), url_id, start, end) {
            1nat
        } else {
            0nat
        }
    }
}

/// The most recent visit of URL `url_id` in the window.
pub open spec fn window_latest(
    visits: Seq<VisitRecord>,
    url_id: u128,
    start: Option<UtcTime>,
    end: Option<UtcTime>,
) -> Option<UtcTime>
    decreases visits.len(),
{
    if visits.len() == 0 {
        None
    } else {
        let prev = window_latest(visits.drop_last(), url_id, start, end);
        let v = visits.last();
        if counts(v, url_id, start, end) {
            match prev {
                Some(p) => if v.visited_at.secs > p.secs {
                    Some(v.visited_at)
                } else {
                    Some(p)
                },
                None => Some(v.visited_at),
            }
        } else {
            prev
        }
    }
}

/// The metadata record of URL `url_id`, if there is one.
pub open spec fn metadata_of(meta: Seq<MetadataRecord>, url_id: u128) -> Option<MetadataRecord> {
    if has_metadata(meta, url_id) {
        Some(meta[metadata_index(meta, url_id)])
    } else {
        None
    }
}

pub open spec fn opt_contains(t: Option<String>, q: Seq<char>) -> bool {
    t is Some && contains_folded(t->Some_0@, q)
}

/// The text occurs in the URL, its title, or its metadata's summary, keywords or tags.
pub open spec fn text_matches(q: Seq<char>, u: UrlRecord, m: Option<MetadataRecord>) -> bool {
    ||| contains_folded(u.url@, q)
    ||| opt_contains(u.title, q)
    ||| (m is Some && (opt_contains(m->Some_0.summary, q) || opt_contains(m->Some_0.keywords, q)
        || opt_contains(m->Some_0.tags, q)))
}

/// The URL itself passes the text and domain filters.
pub open spec fn url_selected(p: SearchParams, u: UrlRecord, m: Option<MetadataRecord>) -> bool {
    &&& (p.query is None || text_matches(p.query->Some_0@, u, m))
    &&& (p.domain is None || u.domain@ == p.domain->Some_0@)
}

/// A date filter is given; URLs without a visit in the window then drop out.
pub open spec fn dated(p: SearchParams) -> bool {
    p.start_date is Some || p.end_date is Some
}

/// The `j`-th stored URL matches.
pub open spec fn is_hit(s: HistoryStore, p: SearchParams, j: int) -> bool {
    let u = s.urls@[j];
    &&& url_selected(p, u, metadata_of(s.metadata@, u.id))
    &&& (!dated(p) || window_count(s.visits@, u.id, p.start_date, p.end_date) > 0)
}

/// Indices of the matching URLs among the first `n`, in store order.
pub open spec fn hits(s: HistoryStore, p: SearchParams, n: int) -> Seq<int>
    decreases n,
{
    if n <= 0 {
        seq![]
    } else if is_hit(s, p, n - 1) {
        hits(s, p, n - 1).push(n - 1)
    } else {
        hits(s, p, n - 1)
    }
}

pub open spec fn all_hits(s: HistoryStore, p: SearchParams) -> Seq<int> {
    hits(s, p, s.urls@.len() as int)
}

/// The row of the `j`-th stored URL.
pub open spec fn hit_result(s: HistoryStore, p: SearchParams, j: int) -> SearchResult {
    let u = s.urls@[j];
    SearchResult {
        url: u,
        metadata: metadata_of(s.metadata@, u.id),
        visit_count: window_count(s.visits@, u.id, p.start_date, p.end_date) as usize,
        last_visit: window_latest(s.visits@, u.id, p.start_date, p.end_date),
    }
}

/// Rows are ranked by their most recent visit; a row without one ranks last.
pub open spec fn recency_key(t: Option<UtcTime>) -> i128 {
    match t {
        Some(t) => t.secs as i128,
        None => ((i64::MIN as int) - 1) as i128,
    }
}

pub open spec fn hit_keys(s: HistoryStore, p: SearchParams) -> Seq<i128> {
    all_hits(s, p).map_values(|j: int| recency_key(hit_result(s, p, j).last_visit))
}

/// Index of the first row of the page.
pub open spec fn page_start(offset: Option<usize>, total: int) -> int {
    match offset {
        Some(o) => if o < total {
            o as int
        } else {
            total
        },
        None => 0,
    }
}

/// Number of rows on the page.
pub open spec fn page_len(limit: Option<usize>, offset: Option<usize>, total: int) -> int {
    let rest = total - page_start(offset, total);
    match limit {
        Some(l) => if l < rest {
            l as int
        } else {
            rest
        },
        None => rest,
    }
}

// ---------------------------------------------------------------- computing

impl SearchResult {
    pub fn duplicate(&self) -> (r: SearchResult)
        ensures
            r == *self,
    {
        SearchResult {
            url: self.url.duplicate(),
            metadata: match &self.metadata {
                Some(m) => Some(m.duplicate()),
                None => None,
            },
            visit_count: self.visit_count,
            last_visit: self.last_visit,
        }
    }
}

fn opt_text_contains(t: &Option<String>, q: &Vec<char>) -> (r: bool)
    ensures
        r == opt_contains(*t, q@),
{
    match t {
        Some(s) => contains_ignoring_case(&chars_of(s.as_str()), q),
        None => false,
    }
}

fn text_found(q: &Vec<char>, u: &UrlRecord, m: &Option<MetadataRecord>) -> (r: bool)
    ensures
        r == text_matches(q@, *u, *m),
{
    if contains_ignoring_case(&chars_of(u.url.as_str()), q) {
        return true;
    }
    if opt_text_contains(&u.title, q) {
        return true;
    }
    match m {
        Some(md) => opt_text_contains(&md.summary, q) || opt_text_contains(&md.keywords, q)
            || opt_text_contains(&md.tags, q),
        None => false,
    }
}

/// The metadata record of URL `url_id`.
pub fn get_metadata_for_url(store: &HistoryStore, url_id: u128) -> (r: Option<MetadataRecord>)
    requires
        store.wf(),
    ensures
        r == metadata_of(store.metadata@, url_id),
{
    match find_metadata(&store.metadata, url_id) {
        Some(i) => {
            proof {
                let k = metadata_index(store.metadata@, url_id);
                assert(store.metadata@[k].url_id == url_id);
            }
            Some(store.metadata[i].duplicate())
        },
        None => None,
    }
}

/// Number and most recent instant of the visits of URL `url_id` in the window.
pub fn window_aggregate(
    visits: &Vec<VisitRecord>,
    url_id: u128,
    start: Option<UtcTime>,
    end: Option<UtcTime>,
) -> (r: (usize, Option<UtcTime>))
    ensures
        r.0 == window_count(visits@, url_id, start, end),
        r.1 == window_latest(visits@, url_id, start, end),
{
    let mut count: usize = 0;
    let mut latest: Option<UtcTime> = None;
    let mut i: usize = 0;
    while i < visits.len()
        invariant
            i <= visits@.len(),
            count == window_count(visits@.subrange(0, i as int), url_id, start, end),
            count <= i,
            latest == window_latest(visits@.subrange(0, i as int), url_id, start, end),
        decreases visits@.len() - i,
    {
        assert(visits@.subrange(0, i + 1).drop_last() =~= visits@.subrange(0, i as int));
        let v = &visits[i];
        let t = v.visited_at;
        let inside = v.url_id == url_id && match start {
            Some(s) => s.secs <= t.secs,
            None => true,
        } && match end {
            Some(e) => t.secs <= e.secs,
            None => true,
        };
        if inside {
            count += 1;
            latest = match latest {
                Some(p) => if t.secs > p.secs {
                    Some(t)
                } else {
                    Some(p)
                },
                None => Some(t),
            };
        }
        i += 1;
    }
    assert(visits@.subrange(0, visits@.len() as int) =~= visits@);
    (count, latest)
}

/// Searches the store: matching URLs with their visit count and most recent visit in the
/// window, most recent first (earlier stored URL first among equals), then the page that
/// `offset` and `limit` select. `total_count` counts every matching URL.
pub fn search_history(store: &HistoryStore, params: &SearchParams) -> (r: SearchResults)
    requires
        store.wf(),
    ensures
        r.total_count == all_hits(*store, *params).len(),
        r.urls@.len() == page_len(params.limit, params.offset, r.total_count as int),
        exists|order: Seq<int>|
            {
                &&& is_rank_order(hit_keys(*store, *params), order)
                &&& forall|k: int|
                    0 <= k < r.urls@.len() ==> #[trigger] r.urls@[k] == hit_result(
                        *store,
                        *params,
                        all_hits(*store, *params)[order[page_start(params.offset, r.total_count as int) + k]],
                    )
            },
        r.total_count >= r.urls@.len(),
        params.limit is None && params.offset is None ==> r.total_count == r.urls@.len(),
{
    let query = match &params.query {
        Some(q) => Some(chars_of(q.as_str())),
        None => None,
    };
    let dated_search = params.start_date.is_some() || params.end_date.is_some();
    let mut rows: Vec<SearchResult> = Vec::new();
    let mut keys: Vec<i128> = Vec::new();
    let ghost mut found: Seq<int> = seq![];
    let mut j: usize = 0;
    while j < store.urls.len()
        invariant
            store.wf(),
            j <= store.urls@.len(),
            dated_search == dated(*params),
            query is Some <==> params.query is Some,
            query is Some ==> query->Some_0@ == params.query->Some_0@,
            found == hits(*store, *params, j as int),
            rows@.len() == found.len(),
            keys@.len() == found.len(),
            rows@.len() <= j,
            forall|k: int| 0 <= k < found.len() ==> 0 <= #[trigger] found[k] < j,
            forall|k: int| 0 <= k < rows@.len() ==> #[trigger] rows@[k] == hit_result(*store, *params, found[k]),
            forall|k: int| 0 <= k < keys@.len() ==> #[trigger] keys@[k] == recency_key(rows@[k].last_visit),
        decreases store.urls@.len() - j,
    {
        let u = &store.urls[j];
        let metadata = get_metadata_for_url(store, u.id);
        let text_ok = match &query {
            Some(q) => text_found(q, u, &metadata),
            None => true,
        };
        let domain_ok = match &params.domain {
            Some(d) => u.domain == *d,
            None => true,
        };
        if text_ok && domain_ok {
            let (count, latest) = window_aggregate(&store.visits, u.id, params.start_date, params.end_date);
            if !dated_search || count > 0 {
                let key: i128 = match latest {
                    Some(t) => t.secs as i128,
                    None => (i64::MIN as i128) - 1,
                };
                rows.push(
                    SearchResult { url: u.duplicate(), metadata, visit_count: count, last_visit: latest },
                );
                keys.push(key);
                proof {
                    found = found.push(j as int);
                }
            }
        }
        j += 1;
    }
    let total = rows.len();
    proof {
        assert(keys@ =~= hit_keys(*store, *params));
    }
    let order = rank_order(&keys);
    let start = match params.offset {
        Some(o) => if o < total {
            o
        } else {
            total
        },
        None => 0,
    };
    let rest = total - start;
    let count = match params.limit {
        Some(l) => if l < rest {
            l
        } else {
            rest
        },
        None => rest,
    };
    let mut page: Vec<SearchResult> = Vec::new();
    let mut k: usize = 0;
    while k < count
        invariant
            k <= count,
            start + count <= total,
            total == rows@.len(),
            order@.len() == total,
            is_rank_order(keys@, crate::ranking::as_ints(order@)),
            page@.len() == k,
            forall|i: int|
                0 <= i < k ==> #[trigger] page@[i] == rows@[order@[start + i] as int],
        decreases count - k,
    {
        assert(crate::ranking::as_ints(order@)[start + k] == order@[start + k] as int);
        let row = rows[order[start + k]].duplicate();
        page.push(row);
        k += 1;
    }
    proof {
        let o = crate::ranking::as_ints(order@);
        assert forall|i: int| 0 <= i < page@.len() implies #[trigger] page@[i] == hit_result(
            *store,
            *params,
            all_hits(*store, *params)[o[start + i]],
        ) by {
            assert(o[start + i] == order@[start + i] as int);
        }
    }
    SearchResults { urls: page, total_count: total }
}

/// A search by domain alone finds exactly the stored URLs of that domain, each once, in
/// store order before ranking.
pub proof fn lemma_domain_search_hits(s: HistoryStore, p: SearchParams, n: int)
    requires
        p.query is None,
        p.start_date is None,
        p.end_date is None,
        p.domain is Some,
        0 <= n <= s.urls@.len(),
    ensures
        forall|k: int|
            0 <= k < hits(s, p, n).len() ==> 0 <= #[trigger] hits(s, p, n)[k] < n && s.urls@[hits(s, p, n)[k]].domain@
                == p.domain->Some_0@,
        forall|j: int| 0 <= j < n && #[trigger] s.urls@[j].domain@ == p.domain->Some_0@ ==> hits(s, p, n).contains(j),
        forall|a: int, b: int|
            0 <= a < b < hits(s, p, n).len() ==> #[trigger] hits(s, p, n)[a] < #[trigger] hits(s, p, n)[b],
    decreases n,
{
    if n > 0 {
        lemma_domain_search_hits(s, p, n - 1);
        let prev = hits(s, p, n - 1);
        let cur = hits(s, p, n);
        assert forall|j: int| 0 <= j < n && #[trigger] s.urls@[j].domain@ == p.domain->Some_0@ implies cur.contains(j) by {
            if j < n - 1 {
                assert(prev.contains(j));
                let k = choose|k: int| 0 <= k < prev.len() && prev[k] == j;
                assert(cur[k] == j);
            } else {
                assert(is_hit(s, p, n - 1));
                assert(cur[prev.len() as int] == j);
            }
        }
    }
}

} // verus!
