//! The canonical store and the idempotent merge of extraction batches into it.

use vstd::prelude::*;
use std::collections::HashMap;
use crate::extract::RawHistoryData;
use crate::records::{MetadataRecord, UrlRecord, VisitRecord, empty_metadata};
use crate::text::{decimal_text, int_text};
use crate::timestamp::UtcTime;

verus! {

broadcast use vstd::std_specs::hash::group_hash_axioms;

/// The canonical store: URLs (unique by text and by id), visits (unique by id and by
/// URL, instant and source file), and at most one metadata record per URL id.
#[derive(Debug, Clone)]
pub struct HistoryStore {
    pub urls: Vec<UrlRecord>,
    pub visits: Vec<VisitRecord>,
    pub metadata: Vec<MetadataRecord>,
}

// ---------------------------------------------------------------- lookups

pub open spec fn has_url(urls: Seq<UrlRecord>, url: Seq<char>) -> bool {
    exists|i: int| 0 <= i < urls.len() && (#[trigger] urls[i]).url@ == url
}

pub open spec fn url_index(urls: Seq<UrlRecord>, url: Seq<char>) -> int {
    choose|i: int| 0 <= i < urls.len() && (#[trigger] urls[i]).url@ == url
}

pub open spec fn url_id_taken(urls: Seq<UrlRecord>, id: u128) -> bool {
    exists|i: int| 0 <= i < urls.len() && (#[trigger] urls[i]).id == id
}

pub open spec fn has_metadata(meta: Seq<MetadataRecord>, url_id: u128) -> bool {
    exists|i: int| 0 <= i < meta.len() && (#[trigger] meta[i]).url_id == url_id
}

pub open spec fn metadata_index(meta: Seq<MetadataRecord>, url_id: u128) -> int {
    choose|i: int| 0 <= i < meta.len() && (#[trigger] meta[i]).url_id == url_id
}

/// Same event: same URL, instant and source file.
pub open spec fn same_event(v: VisitRecord, url_id: u128, at: UtcTime, source_file: Seq<char>) -> bool {
    v.url_id == url_id && v.visited_at == at && v.source_file@ == source_file
}

pub open spec fn has_visit(visits: Seq<VisitRecord>, url_id: u128, at: UtcTime, source_file: Seq<char>) -> bool {
    exists|i: int| 0 <= i < visits.len() && same_event(#[trigger] visits[i], url_id, at, source_file)
}

pub open spec fn visit_id_taken(visits: Seq<VisitRecord>, id: u128) -> bool {
    exists|i: int| 0 <= i < visits.len() && (#[trigger] visits[i]).id == id
}

// ---------------------------------------------------------------- well-formedness

pub open spec fn urls_wf(urls: Seq<UrlRecord>) -> bool {
    forall|i: int, j: int|
        0 <= i < urls.len() && 0 <= j < urls.len() && i != j ==> (#[trigger] urls[i]).url@ != (
        #[trigger] urls[j]).url@ && urls[i].id != urls[j].id
}

pub open spec fn metadata_wf(meta: Seq<MetadataRecord>) -> bool {
    forall|i: int, j: int|
        0 <= i < meta.len() && 0 <= j < meta.len() && i != j ==> (#[trigger] meta[i]).url_id != (
        #[trigger] meta[j]).url_id
}

pub open spec fn visits_wf(visits: Seq<VisitRecord>) -> bool {
    forall|i: int, j: int|
        0 <= i < visits.len() && 0 <= j < visits.len() && i != j ==> (#[trigger] visits[i]).id != (
        #[trigger] visits[j]).id && !same_event(
            visits[i],
            visits[j].url_id,
            visits[j].visited_at,
            visits[j].source_file@,
        )
}

impl HistoryStore {
    pub open spec fn wf(&self) -> bool {
        &&& urls_wf(self.urls@)
        &&& metadata_wf(self.metadata@)
        &&& visits_wf(self.visits@)
    }

    /// An empty store.
    pub fn new() -> (r: HistoryStore)
        ensures
            r.wf(),
            r.urls@.len() == 0,
            r.visits@.len() == 0,
            r.metadata@.len() == 0,
    {
        HistoryStore { urls: Vec::new(), visits: Vec::new(), metadata: Vec::new() }
    }
}

// ---------------------------------------------------------------- one record

/// The later of two instants.
pub open spec fn later(a: UtcTime, b: UtcTime) -> UtcTime {
    if b.secs > a.secs {
        b
    } else {
        a
    }
}

/// `u` with `last_seen` advanced to `t` if `t` is later.
pub open spec fn advanced(u: UrlRecord, t: UtcTime) -> UrlRecord {
    UrlRecord {
        id: u.id,
        url: u.url,
        title: u.title,
        domain: u.domain,
        first_seen: u.first_seen,
        last_seen: later(u.last_seen, t),
    }
}

/// What became of one URL.
#[derive(Debug, Clone, Copy, PartialEq, Eq, Structural)]
pub enum UrlMerge {
    /// New to the store, stored under this id.
    Inserted(u128),
    /// Known already, under this id; its `last_seen` was merged.
    Updated(u128),
    /// Another URL holds its id.
    Rejected,
}

impl UrlMerge {
    /// The stored id that the URL resolved to.
    pub open spec fn resolved(self) -> Option<u128> {
        match self {
            UrlMerge::Inserted(id) => Some(id),
            UrlMerge::Updated(id) => Some(id),
            UrlMerge::Rejected => None,
        }
    }
}

/// Merging one URL: a known URL text only advances `last_seen`; a new one is stored under
/// its own id, unless another URL holds that id.
pub open spec fn merge_url_spec(urls: Seq<UrlRecord>, u: UrlRecord) -> (Seq<UrlRecord>, UrlMerge) {
    if has_url(urls, u.url@) {
        let i = url_index(urls, u.url@);
        (urls.update(i, advanced(urls[i], u.last_seen)), UrlMerge::Updated(urls[i].id))
    } else if url_id_taken(urls, u.id) {
        (urls, UrlMerge::Rejected)
    } else {
        (urls.push(u), UrlMerge::Inserted(u.id))
    }
}

/// Merging one metadata record: stored if its URL has none; an enriched record replaces
/// the present one; anything else leaves it. Whether a record was added.
pub open spec fn merge_metadata_spec(meta: Seq<MetadataRecord>, m: MetadataRecord) -> (Seq<MetadataRecord>, bool) {
    if has_metadata(meta, m.url_id) {
        if m.is_enriched {
            (meta.update(metadata_index(meta, m.url_id), m), false)
        } else {
            (meta, false)
        }
    } else {
        (meta.push(m), true)
    }
}

/// What became of one visit.
#[derive(Debug, Clone, Copy, PartialEq, Eq, Structural)]
pub enum VisitMerge {
    Inserted,
    /// The same event is stored already.
    Skipped,
    /// Its URL is not in the store.
    Unresolved,
    /// Another visit holds its id.
    Rejected,
}

/// `v` attached to the stored URL `url_id`.
pub open spec fn attached(v: VisitRecord, url_id: u128) -> VisitRecord {
    VisitRecord {
        id: v.id,
        url_id,
        visited_at: v.visited_at,
        visit_count: v.visit_count,
        source_file: v.source_file,
        device_name: v.device_name,
        duration_sec: v.duration_sec,
    }
}

/// Merging one visit whose URL resolved to `resolved`: a known event is skipped, a new one
/// stored under the resolved URL id.
pub open spec fn merge_visit_spec(
    visits: Seq<VisitRecord>,
    v: VisitRecord,
    resolved: Option<u128>,
) -> (Seq<VisitRecord>, VisitMerge) {
    match resolved {
        None => (visits, VisitMerge::Unresolved),
        Some(id) => if has_visit(visits, id, v.visited_at, v.source_file@) {
            (visits, VisitMerge::Skipped)
        } else if visit_id_taken(visits, v.id) {
            (visits, VisitMerge::Rejected)
        } else {
            (visits.push(attached(v, id)), VisitMerge::Inserted)
        },
    }
}

pub open spec fn url_error_text(u: UrlRecord) -> Seq<char> {
    "Failed to insert URL "@ + u.url@ + ": its id belongs to another URL"@
}

pub open spec fn visit_error_text(v: VisitRecord, outcome: VisitMerge) -> Seq<char> {
    "Failed to insert visit at "@ + decimal_text(v.visited_at.secs as int) + " from "@ + v.source_file@
        + (if outcome == VisitMerge::Unresolved {
        ": its URL is not in the store"@
    } else {
        ": its id belongs to another visit"@
    })
}

fn find_url(urls: &Vec<UrlRecord>, url: &String) -> (r: Option<usize>)
    ensures
        r is Some <==> has_url(urls@, url@),
        r is Some ==> r->Some_0 < urls@.len() && urls@[r->Some_0 as int].url@ == url@,
{
    let mut i: usize = 0;
    while i < urls.len()
        invariant
            i <= urls@.len(),
            forall|j: int| 0 <= j < i ==> (#[trigger] urls@[j]).url@ != url@,
        decreases urls@.len() - i,
    {
        if urls[i].url == *url {
            return Some(i);
        }
        i += 1;
    }
    None
}

fn find_url_id(urls: &Vec<UrlRecord>, id: u128) -> (r: bool)
    ensures
        r == url_id_taken(urls@, id),
{
    let mut i: usize = 0;
    while i < urls.len()
        invariant
            i <= urls@.len(),
            forall|j: int| 0 <= j < i ==> (#[trigger] urls@[j]).id != id,
        decreases urls@.len() - i,
    {
        if urls[i].id == id {
            return true;
        }
        i += 1;
    }
    false
}

pub(crate) fn find_metadata(meta: &Vec<MetadataRecord>, url_id: u128) -> (r: Option<usize>)
    ensures
        r is Some <==> has_metadata(meta@, url_id),
        r is Some ==> r->Some_0 < meta@.len() && meta@[r->Some_0 as int].url_id == url_id,
{
    let mut i: usize = 0;
    while i < meta.len()
        invariant
            i <= meta@.len(),
            forall|j: int| 0 <= j < i ==> (#[trigger] meta@[j]).url_id != url_id,
        decreases meta@.len() - i,
    {
        if meta[i].url_id == url_id {
            return Some(i);
        }
        i += 1;
    }
    None
}

fn find_visit(visits: &Vec<VisitRecord>, url_id: u128, at: UtcTime, source_file: &String) -> (r: bool)
    ensures
        r == has_visit(visits@, url_id, at, source_file@),
{
    let mut i: usize = 0;
    while i < visits.len()
        invariant
            i <= visits@.len(),
            forall|j: int| 0 <= j < i ==> !same_event(#[trigger] visits@[j], url_id, at, source_file@),
        decreases visits@.len() - i,
    {
        let v = &visits[i];
        if v.url_id == url_id && v.visited_at.secs == at.secs && v.source_file == *source_file {
            return true;
        }
        i += 1;
    }
    false
}

fn find_visit_id(visits: &Vec<VisitRecord>, id: u128) -> (r: bool)
    ensures
        r == visit_id_taken(visits@, id),
{
    let mut i: usize = 0;
    while i < visits.len()
        invariant
            i <= visits@.len(),
            forall|j: int| 0 <= j < i ==> (#[trigger] visits@[j]).id != id,
        decreases visits@.len() - i,
    {
        if visits[i].id == id {
            return true;
        }
        i += 1;
    }
    false
}

impl HistoryStore {
    /// Merges one URL.
    pub fn insert_url(&mut self, url: &UrlRecord) -> (r: UrlMerge)
        requires
            old(self).wf(),
        ensures
            final(self).wf(),
            (final(self).urls@, r) == merge_url_spec(old(self).urls@, *url),
            final(self).visits == old(self).visits,
            final(self).metadata == old(self).metadata,
    {
        match find_url(&self.urls, &url.url) {
            Some(i) => {
                let ghost urls0 = self.urls@;
                proof {
                    let k = url_index(urls0, url.url@);
                    assert(urls0[k].url@ == url.url@);
                    assert(k == i);
                }
                let existing = self.urls[i].duplicate();
                let last_seen = if url.last_seen.secs > existing.last_seen.secs {
                    url.last_seen
                } else {
                    existing.last_seen
                };
                let id = existing.id;
                let updated = UrlRecord {
                    id: existing.id,
                    url: existing.url,
                    title: existing.title,
                    domain: existing.domain,
                    first_seen: existing.first_seen,
                    last_seen,
                };
                self.urls.set(i, updated);
                proof {
                    assert forall|a: int, b: int|
                        0 <= a < self.urls@.len() && 0 <= b < self.urls@.len() && a != b implies (
                        #[trigger] self.urls@[a]).url@ != (#[trigger] self.urls@[b]).url@
                            && self.urls@[a].id != self.urls@[b].id by {
                        assert(urls0[a].url@ != urls0[b].url@ && urls0[a].id != urls0[b].id);
                    }
                }
                UrlMerge::Updated(id)
            },
            None => {
                if find_url_id(&self.urls, url.id) {
                    UrlMerge::Rejected
                } else {
                    self.urls.push(url.duplicate());
                    UrlMerge::Inserted(url.id)
                }
            },
        }
    }

    /// Merges one metadata record; whether it was added.
    pub fn insert_metadata(&mut self, metadata: &MetadataRecord) -> (r: bool)
        requires
            old(self).wf(),
        ensures
            final(self).wf(),
            (final(self).metadata@, r) == merge_metadata_spec(old(self).metadata@, *metadata),
            final(self).urls == old(self).urls,
            final(self).visits == old(self).visits,
    {
        match find_metadata(&self.metadata, metadata.url_id) {
            Some(i) => {
                proof {
                    let k = metadata_index(self.metadata@, metadata.url_id);
                    assert(self.metadata@[k].url_id == metadata.url_id);
                    assert(k == i);
                }
                if metadata.is_enriched {
                    let ghost meta0 = self.metadata@;
                    self.metadata.set(i, metadata.duplicate());
                    proof {
                        assert forall|a: int, b: int|
                            0 <= a < self.metadata@.len() && 0 <= b < self.metadata@.len() && a != b implies (
                            #[trigger] self.metadata@[a]).url_id != (#[trigger] self.metadata@[b]).url_id by {
                            assert(meta0[a].url_id != meta0[b].url_id);
                        }
                    }
                }
                false
            },
            None => {
                self.metadata.push(metadata.duplicate());
                true
            },
        }
    }

    /// Merges one visit whose URL resolved to `resolved`.
    pub fn insert_visit(&mut self, visit: &VisitRecord, resolved: Option<u128>) -> (r: VisitMerge)
        requires
            old(self).wf(),
        ensures
            final(self).wf(),
            (final(self).visits@, r) == merge_visit_spec(old(self).visits@, *visit, resolved),
            final(self).urls == old(self).urls,
            final(self).metadata == old(self).metadata,
    {
        match resolved {
            None => VisitMerge::Unresolved,
            Some(url_id) => {
                if find_visit(&self.visits, url_id, visit.visited_at, &visit.source_file) {
                    VisitMerge::Skipped
                } else if find_visit_id(&self.visits, visit.id) {
                    VisitMerge::Rejected
                } else {
                    let v = visit.duplicate();
                    let stored = VisitRecord {
                        id: v.id,
                        url_id,
                        visited_at: v.visited_at,
                        visit_count: v.visit_count,
                        source_file: v.source_file,
                        device_name: v.device_name,
                        duration_sec: v.duration_sec,
                    };
                    self.visits.push(stored);
                    VisitMerge::Inserted
                }
            },
        }
    }
}

// ---------------------------------------------------------------- batches

/// The state after merging the URLs of a batch, each followed by empty metadata for the URL
/// it resolved to: URLs, metadata, batch id to stored id, URLs inserted, URLs updated,
/// metadata inserted, error texts.
pub open spec fn merge_urls_fold(
    urls0: Seq<UrlRecord>,
    meta0: Seq<MetadataRecord>,
    batch: Seq<UrlRecord>,
) -> (Seq<UrlRecord>, Seq<MetadataRecord>, Map<u128, u128>, nat, nat, nat, Seq<Seq<char>>)
    decreases batch.len(),
{
    if batch.len() == 0 {
        (urls0, meta0, Map::empty(), 0, 0, 0, seq![])
    } else {
        let p = merge_urls_fold(urls0, meta0, batch.drop_last());
        let u = batch.last();
        let (urls, r) = merge_url_spec(p.0, u);
        match r.resolved() {
            None => (urls, p.1, p.2, p.3, p.4, p.5, p.6.push(url_error_text(u))),
            Some(id) => {
                let (meta, added) = merge_metadata_spec(p.1, empty_metadata(id));
                let inserted = r is Inserted;
                (
                    urls,
                    meta,
                    p.2.insert(u.id, id),
                    if inserted { p.3 + 1 } else { p.3 },
                    if inserted { p.4 } else { p.4 + 1 },
                    if added { p.5 + 1 } else { p.5 },
                    p.6,
                )
            },
        }
    }
}

/// The stored URL id that a batch URL id resolved to.
pub open spec fn resolve(ids: Map<u128, u128>, batch_id: u128) -> Option<u128> {
    if ids.contains_key(batch_id) {
        Some(ids[batch_id])
    } else {
        None
    }
}

/// The state after merging the visits of a batch: visits, visits inserted, visits skipped,
/// error texts.
pub open spec fn merge_visits_fold(
    visits0: Seq<VisitRecord>,
    batch: Seq<VisitRecord>,
    ids: Map<u128, u128>,
) -> (Seq<VisitRecord>, nat, nat, Seq<Seq<char>>)
    decreases batch.len(),
{
    if batch.len() == 0 {
        (visits0, 0, 0, seq![])
    } else {
        let p = merge_visits_fold(visits0, batch.drop_last(), ids);
        let v = batch.last();
        let (visits, outcome) = merge_visit_spec(p.0, v, resolve(ids, v.url_id));
        match outcome {
            VisitMerge::Inserted => (visits, p.1 + 1, p.2, p.3),
            VisitMerge::Skipped => (visits, p.1, p.2 + 1, p.3),
            _ => (visits, p.1, p.2, p.3.push(visit_error_text(v, outcome))),
        }
    }
}

/// Counts of one merge, and the records that could not be merged.
#[derive(Debug, Clone, Default)]
pub struct InsertStats {
    /// URLs that were new to the store.
    pub urls_inserted: usize,
    /// Known URLs whose `last_seen` was merged.
    pub urls_updated: usize,
    /// Visits that were new to the store.
    pub visits_inserted: usize,
    /// Visits that were stored already.
    pub visits_skipped: usize,
    /// Metadata records added for new URLs.
    pub metadata_inserted: usize,
    /// One message for each record that could not be merged.
    pub errors: Vec<String>,
}

impl InsertStats {
    /// Records added: URLs, visits and metadata.
    pub fn total_inserted(&self) -> (r: usize)
        requires
            self.urls_inserted + self.visits_inserted + self.metadata_inserted <= usize::MAX,
        ensures
            r == self.urls_inserted + self.visits_inserted + self.metadata_inserted,
    {
        self.urls_inserted + self.visits_inserted + self.metadata_inserted
    }

    /// Whether some record could not be merged.
    pub fn has_errors(&self) -> (r: bool)
        ensures
            r == (self.errors@.len() > 0),
    {
        self.errors.len() > 0
    }
}

pub open spec fn texts(v: Seq<String>) -> Seq<Seq<char>> {
    v.map_values(|s: String| s@)
}

/// What merging a batch of `urls` and `visits` into `s` leaves and reports: all URL merges
/// (with their metadata) come before any visit merge.
pub open spec fn merged_batch(
    s: HistoryStore,
    urls: Seq<UrlRecord>,
    visits: Seq<VisitRecord>,
    after: HistoryStore,
    stats: InsertStats,
) -> bool {
    let p = merge_urls_fold(s.urls@, s.metadata@, urls);
    let q = merge_visits_fold(s.visits@, visits, p.2);
    &&& after.urls@ == p.0
    &&& after.metadata@ == p.1
    &&& after.visits@ == q.0
    &&& stats.urls_inserted == p.3
    &&& stats.urls_updated == p.4
    &&& stats.metadata_inserted == p.5
    &&& stats.visits_inserted == q.1
    &&& stats.visits_skipped == q.2
    &&& texts(stats.errors@) == p.6 + q.3
}

/// Merges a batch into the store: every URL (creating its empty metadata), then every visit,
/// resolved through the URL it names in the batch. Failures of single records are reported in
/// `errors` and never stop the merge.
pub fn insert_history_data(store: &mut HistoryStore, history_data: &RawHistoryData) -> (stats: InsertStats)
    requires
        old(store).wf(),
    ensures
        final(store).wf(),
        merged_batch(*old(store), history_data.urls@, history_data.visits@, *final(store), stats),
{
    let ghost s0 = *store;
    let urls = &history_data.urls;
    let visits = &history_data.visits;
    let mut ids: HashMap<u128, u128> = HashMap::new();
    let mut urls_inserted: usize = 0;
    let mut urls_updated: usize = 0;
    let mut metadata_inserted: usize = 0;
    let mut errors: Vec<String> = Vec::new();
    let mut i: usize = 0;
    while i < urls.len()
        invariant
            i <= urls@.len(),
            store.wf(),
            store.visits == s0.visits,
            ({
                let p = merge_urls_fold(s0.urls@, s0.metadata@, urls@.subrange(0, i as int));
                &&& store.urls@ == p.0
                &&& store.metadata@ == p.1
                &&& ids@ == p.2
                &&& urls_inserted == p.3
                &&& urls_updated == p.4
                &&& metadata_inserted == p.5
                &&& texts(errors@) == p.6
                &&& p.3 + p.4 + p.6.len() == i
                &&& p.5 <= i
            }),
        decreases urls@.len() - i,
    {
        let ghost prefix = urls@.subrange(0, i as int);
        let ghost next = urls@.subrange(0, i + 1);
        assert(next.drop_last() =~= prefix);
        let url = &urls[i];
        let outcome = store.insert_url(url);
        let resolved = match outcome {
            UrlMerge::Inserted(id) => {
                urls_inserted += 1;
                Some(id)
            },
            UrlMerge::Updated(id) => {
                urls_updated += 1;
                Some(id)
            },
            UrlMerge::Rejected => None,
        };
        match resolved {
            Some(id) => {
                if store.insert_metadata(&MetadataRecord::empty(id)) {
                    metadata_inserted += 1;
                }
                ids.insert(url.id, id);
            },
            None => {
                let ghost e0 = errors@;
                let msg = String::from_str("Failed to insert URL ").concat(url.url.as_str()).concat(
                    ": its id belongs to another URL",
                );
                errors.push(msg);
                assert(texts(errors@) =~= texts(e0).push(msg@));
            },
        }
        i += 1;
    }
    assert(urls@.subrange(0, urls@.len() as int) =~= urls@);
    let ghost url_errors = texts(errors@);
    let mut visits_inserted: usize = 0;
    let mut visits_skipped: usize = 0;
    let mut j: usize = 0;
    while j < visits.len()
        invariant
            j <= visits@.len(),
            store.wf(),
            ({
                let p = merge_urls_fold(s0.urls@, s0.metadata@, urls@);
                let q = merge_visits_fold(s0.visits@, visits@.subrange(0, j as int), p.2);
                &&& store.urls@ == p.0
                &&& store.metadata@ == p.1
                &&& ids@ == p.2
                &&& urls_inserted == p.3
                &&& urls_updated == p.4
                &&& metadata_inserted == p.5
                &&& url_errors == p.6
                &&& store.visits@ == q.0
                &&& visits_inserted == q.1
                &&& visits_skipped == q.2
                &&& texts(errors@) == p.6 + q.3
                &&& q.1 + q.2 + q.3.len() == j
            }),
        decreases visits@.len() - j,
    {
        let ghost prefix = visits@.subrange(0, j as int);
        let ghost next = visits@.subrange(0, j + 1);
        assert(next.drop_last() =~= prefix);
        let visit = &visits[j];
        let resolved = match ids.get(&visit.url_id) {
            Some(id) => Some(*id),
            None => None,
        };
        let outcome = store.insert_visit(visit, resolved);
        match outcome {
            VisitMerge::Inserted => {
                visits_inserted += 1;
            },
            VisitMerge::Skipped => {
                visits_skipped += 1;
            },
            _ => {
                let ghost e0 = errors@;
                let reason = if outcome == VisitMerge::Unresolved {
                    ": its URL is not in the store"
                } else {
                    ": its id belongs to another visit"
                };
                let msg = String::from_str("Failed to insert visit at ").concat(
                    int_text(visit.visited_at.secs).as_str(),
                ).concat(" from ").concat(visit.source_file.as_str()).concat(reason);
                errors.push(msg);
                assert(texts(errors@) =~= texts(e0).push(msg@));
            },
        }
        j += 1;
    }
    assert(visits@.subrange(0, visits@.len() as int) =~= visits@);
    InsertStats {
        urls_inserted,
        urls_updated,
        visits_inserted,
        visits_skipped,
        metadata_inserted,
        errors,
    }
}

} // verus!
