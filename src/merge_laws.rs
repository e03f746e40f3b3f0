//! Laws of merging: `last_seen` only advances, and a batch merged twice changes nothing
//! the second time.

use vstd::prelude::*;
use crate::records::{MetadataRecord, UrlRecord, VisitRecord, empty_metadata};
use crate::store::{
    HistoryStore,
    UrlMerge,
    VisitMerge,
    advanced,
    has_metadata,
    has_url,
    has_visit,
    merge_metadata_spec,
    merge_url_spec,
    merge_urls_fold,
    merge_visit_spec,
    merge_visits_fold,
    merged_batch,
    metadata_index,
    resolve,
    url_id_taken,
    url_index,
    urls_wf,
    visit_id_taken,
};

verus! {

/// The record of URL text `x` in `b` keeps the id and `first_seen` it had in `a`, and its
/// `last_seen` is no earlier.
pub open spec fn keeps_url(a: Seq<UrlRecord>, b: Seq<UrlRecord>, x: Seq<char>) -> bool {
    let ra = a[url_index(a, x)];
    let rb = b[url_index(b, x)];
    &&& has_url(b, x)
    &&& rb.id == ra.id
    &&& rb.first_seen == ra.first_seen
    &&& rb.last_seen.secs >= ra.last_seen.secs
}

proof fn lemma_url_index(urls: Seq<UrlRecord>, x: Seq<char>, i: int)
    requires
        urls_wf(urls),
        0 <= i < urls.len(),
        urls[i].url@ == x,
    ensures
        has_url(urls, x),
        url_index(urls, x) == i,
{
    let k = url_index(urls, x);
    assert(urls[k].url@ == x);
}

/// Merging one URL keeps the store's URLs unique by text and by id.
pub proof fn lemma_merge_url_wf(urls: Seq<UrlRecord>, u: UrlRecord)
    requires
        urls_wf(urls),
    ensures
        urls_wf(merge_url_spec(urls, u).0),
        forall|i: int| 0 <= i < urls.len() ==> (#[trigger] merge_url_spec(urls, u).0[i]).url@ == urls[i].url@
            && merge_url_spec(urls, u).0[i].id == urls[i].id,
        merge_url_spec(urls, u).0.len() >= urls.len(),
{
    let after = merge_url_spec(urls, u).0;
    if has_url(urls, u.url@) {
        let k = url_index(urls, u.url@);
        assert forall|a: int, b: int|
            0 <= a < after.len() && 0 <= b < after.len() && a != b implies (#[trigger] after[a]).url@ != (
            #[trigger] after[b]).url@ && after[a].id != after[b].id by {
            assert(urls[a].url@ != urls[b].url@ && urls[a].id != urls[b].id);
        }
    } else if !url_id_taken(urls, u.id) {
        assert forall|a: int, b: int|
            0 <= a < after.len() && 0 <= b < after.len() && a != b implies (#[trigger] after[a]).url@ != (
            #[trigger] after[b]).url@ && after[a].id != after[b].id by {
            if a < urls.len() && b < urls.len() {
                assert(urls[a].url@ != urls[b].url@ && urls[a].id != urls[b].id);
            } else if a < urls.len() {
                assert(after[b] == u);
                assert(urls[a].url@ != u.url@);
                assert(urls[a].id != u.id);
            } else {
                assert(after[a] == u);
                assert(urls[b].url@ != u.url@);
                assert(urls[b].id != u.id);
            }
        }
    }
}

/// Merging one URL keeps every URL text that was stored, with its id and `first_seen`, and
/// never moves its `last_seen` back.
pub proof fn lemma_merge_url_keeps(urls: Seq<UrlRecord>, u: UrlRecord, x: Seq<char>)
    requires
        urls_wf(urls),
        has_url(urls, x),
    ensures
        keeps_url(urls, merge_url_spec(urls, u).0, x),
{
    lemma_merge_url_wf(urls, u);
    let after = merge_url_spec(urls, u).0;
    let i = url_index(urls, x);
    assert(urls[i].url@ == x);
    assert(after[i].url@ == x);
    lemma_url_index(after, x, i);
}

proof fn lemma_keeps_url_trans(a: Seq<UrlRecord>, b: Seq<UrlRecord>, c: Seq<UrlRecord>, x: Seq<char>)
    requires
        keeps_url(a, b, x),
        keeps_url(b, c, x),
    ensures
        keeps_url(a, c, x),
{
}

proof fn lemma_keeps_url_refl(a: Seq<UrlRecord>, x: Seq<char>)
    requires
        has_url(a, x),
    ensures
        keeps_url(a, a, x),
{
}

/// The URL state after the first `n` URLs of a batch.
pub open spec fn urls_after(urls0: Seq<UrlRecord>, meta0: Seq<MetadataRecord>, batch: Seq<UrlRecord>, n: int) -> (
    Seq<UrlRecord>,
    Seq<MetadataRecord>,
    Map<u128, u128>,
    nat,
    nat,
    nat,
    Seq<Seq<char>>,
) {
    merge_urls_fold(urls0, meta0, batch.subrange(0, n))
}

proof fn lemma_urls_after_step(urls0: Seq<UrlRecord>, meta0: Seq<MetadataRecord>, batch: Seq<UrlRecord>, n: int)
    requires
        0 <= n < batch.len(),
    ensures
        ({
            let p = urls_after(urls0, meta0, batch, n);
            let q = urls_after(urls0, meta0, batch, n + 1);
            let (urls, r) = merge_url_spec(p.0, batch[n]);
            &&& q.0 == urls
            &&& match r.resolved() {
                None => q.1 == p.1 && q.2 == p.2 && q.3 == p.3 && q.5 == p.5,
                Some(id) => {
                    let (meta, added) = merge_metadata_spec(p.1, empty_metadata(id));
                    &&& q.1 == meta
                    &&& q.2 == p.2.insert(batch[n].id, id)
                    &&& q.3 == (if r is Inserted { p.3 + 1 } else { p.3 })
                    &&& q.5 == (if added { p.5 + 1 } else { p.5 })
                },
            }
        }),
{
    assert(batch.subrange(0, n + 1).drop_last() =~= batch.subrange(0, n));
    assert(batch.subrange(0, n + 1).last() == batch[n]);
}

proof fn lemma_urls_after_all(urls0: Seq<UrlRecord>, meta0: Seq<MetadataRecord>, batch: Seq<UrlRecord>)
    ensures
        urls_after(urls0, meta0, batch, batch.len() as int) == merge_urls_fold(urls0, meta0, batch),
{
    assert(batch.subrange(0, batch.len() as int) =~= batch);
}

/// Metadata merges never drop the record of a URL id.
proof fn lemma_merge_metadata_keeps(meta: Seq<MetadataRecord>, m: MetadataRecord, id: u128)
    ensures
        has_metadata(merge_metadata_spec(meta, m).0, m.url_id),
        has_metadata(meta, id) ==> has_metadata(merge_metadata_spec(meta, m).0, id),
{
    let after = merge_metadata_spec(meta, m).0;
    if has_metadata(meta, m.url_id) {
        let k = metadata_index(meta, m.url_id);
        assert(meta[k].url_id == m.url_id);
        assert(after[k].url_id == m.url_id);
    } else {
        assert(after[meta.len() as int].url_id == m.url_id);
    }
    if has_metadata(meta, id) {
        let j = choose|j: int| 0 <= j < meta.len() && (#[trigger] meta[j]).url_id == id;
        if has_metadata(meta, m.url_id) {
            let k = metadata_index(meta, m.url_id);
            if m.is_enriched && j == k {
                assert(after[j].url_id == id);
            } else {
                assert(after[j].url_id == id);
            }
        } else {
            assert(after[j].url_id == id);
        }
    }
}

/// From step `k` to step `n` of a batch, the URL state stays well-formed, keeps every URL
/// text it held, and keeps the metadata of every URL id it held.
proof fn lemma_urls_after_keeps(
    urls0: Seq<UrlRecord>,
    meta0: Seq<MetadataRecord>,
    batch: Seq<UrlRecord>,
    k: int,
    n: int,
    x: Seq<char>,
    id: u128,
)
    requires
        0 <= k <= n <= batch.len(),
        urls_wf(urls_after(urls0, meta0, batch, k).0),
    ensures
        urls_wf(urls_after(urls0, meta0, batch, n).0),
        has_url(urls_after(urls0, meta0, batch, k).0, x) ==> keeps_url(
            urls_after(urls0, meta0, batch, k).0,
            urls_after(urls0, meta0, batch, n).0,
            x,
        ),
        has_metadata(urls_after(urls0, meta0, batch, k).1, id) ==> has_metadata(
            urls_after(urls0, meta0, batch, n).1,
            id,
        ),
    decreases n - k,
{
    if n == k {
        if has_url(urls_after(urls0, meta0, batch, k).0, x) {
            lemma_keeps_url_refl(urls_after(urls0, meta0, batch, k).0, x);
        }
    } else {
        lemma_urls_after_keeps(urls0, meta0, batch, k, n - 1, x, id);
        lemma_urls_after_step(urls0, meta0, batch, n - 1);
        let p = urls_after(urls0, meta0, batch, n - 1);
        lemma_merge_url_wf(p.0, batch[n - 1]);
        if has_url(urls_after(urls0, meta0, batch, k).0, x) {
            lemma_merge_url_keeps(p.0, batch[n - 1], x);
        }
        let r = merge_url_spec(p.0, batch[n - 1]).1;
        if let Some(rid) = r.resolved() {
            lemma_merge_metadata_keeps(p.1, empty_metadata(rid), id);
        }
    }
}

/// Across the merge of a batch, every URL that was stored stays stored with its id and
/// `first_seen`, and its `last_seen` never moves back.
pub proof fn lemma_last_seen_monotonic(
    before: HistoryStore,
    urls: Seq<UrlRecord>,
    visits: Seq<VisitRecord>,
    after: HistoryStore,
    stats: crate::store::InsertStats,
    x: Seq<char>,
)
    requires
        urls_wf(before.urls@),
        merged_batch(before, urls, visits, after, stats),
        has_url(before.urls@, x),
    ensures
        keeps_url(before.urls@, after.urls@, x),
        urls_wf(after.urls@),
{
    assert(urls.subrange(0, 0) =~= Seq::<UrlRecord>::empty());
    lemma_urls_after_keeps(before.urls@, before.metadata@, urls, 0, urls.len() as int, x, 0);
    lemma_urls_after_all(before.urls@, before.metadata@, urls);
}

// ---------------------------------------------------------------- merging twice

/// Batch URL ids agree with URL texts: an id that the store or the batch already gives to a
/// URL is only reused for the same text.
pub open spec fn ids_consistent(stored: Seq<UrlRecord>, batch: Seq<UrlRecord>) -> bool {
    &&& forall|i: int, j: int|
        0 <= i < batch.len() && 0 <= j < stored.len() && (#[trigger] batch[i]).id == (
        #[trigger] stored[j]).id ==> batch[i].url@ == stored[j].url@
    &&& forall|i: int, j: int|
        0 <= i < batch.len() && 0 <= j < batch.len() && (#[trigger] batch[i]).id == (
        #[trigger] batch[j]).id ==> batch[i].url@ == batch[j].url@
}

proof fn lemma_consistent_step(urls: Seq<UrlRecord>, batch: Seq<UrlRecord>, k: int)
    requires
        ids_consistent(urls, batch),
        urls_wf(urls),
        0 <= k < batch.len(),
    ensures
        ids_consistent(merge_url_spec(urls, batch[k]).0, batch),
        !(merge_url_spec(urls, batch[k]).1 is Rejected),
{
    let u = batch[k];
    let after = merge_url_spec(urls, u).0;
    lemma_merge_url_wf(urls, u);
    if !has_url(urls, u.url@) && url_id_taken(urls, u.id) {
        let j = choose|j: int| 0 <= j < urls.len() && (#[trigger] urls[j]).id == u.id;
        assert(batch[k].id == urls[j].id);
        assert(urls[j].url@ == u.url@);
        assert(false);
    }
    assert forall|i: int, j: int|
        0 <= i < batch.len() && 0 <= j < after.len() && (#[trigger] batch[i]).id == (
        #[trigger] after[j]).id implies batch[i].url@ == after[j].url@ by {
        if j < urls.len() {
            assert(after[j].id == urls[j].id && after[j].url@ == urls[j].url@);
        } else {
            assert(after[j] == u);
            assert(batch[i].id == batch[k].id);
        }
    }
}

/// The `k`-th URL of the batch is turned away in the first merge: its text is not stored
/// and another URL holds its id.
pub open spec fn turned_away(urls0: Seq<UrlRecord>, meta0: Seq<MetadataRecord>, batch: Seq<UrlRecord>, k: int) -> bool {
    merge_url_spec(urls_after(urls0, meta0, batch, k).0, batch[k]).1 is Rejected
}

/// The merge of the batch turns a URL away for its id, yet stores its text through a later
/// URL of the batch. Merging such a batch again may resolve the turned-away URL differently.
pub open spec fn turned_away_but_stored(s: HistoryStore, batch: Seq<UrlRecord>) -> bool {
    exists|k: int|
        0 <= k < batch.len() && turned_away(s.urls@, s.metadata@, batch, k) && has_url(
            merge_urls_fold(s.urls@, s.metadata@, batch).0,
            batch[k].url@,
        )
}

proof fn lemma_urls_after_start(urls0: Seq<UrlRecord>, meta0: Seq<MetadataRecord>, batch: Seq<UrlRecord>)
    ensures
        urls_after(urls0, meta0, batch, 0).0 == urls0,
        urls_after(urls0, meta0, batch, 0).1 == meta0,
{
    assert(batch.subrange(0, 0) =~= Seq::<UrlRecord>::empty());
}

/// What the first merge gives a batch URL that it does not turn away, once all URLs are
/// merged: the text is stored, under the id that the URL resolved to, with metadata, and
/// with a `last_seen` no earlier than the batch's.
proof fn lemma_first_pass_url(
    urls0: Seq<UrlRecord>,
    meta0: Seq<MetadataRecord>,
    batch: Seq<UrlRecord>,
    k: int,
)
    requires
        urls_wf(urls0),
        0 <= k < batch.len(),
        !turned_away(urls0, meta0, batch, k),
    ensures
        ({
            let p = urls_after(urls0, meta0, batch, k);
            let q = urls_after(urls0, meta0, batch, k + 1);
            let fin = merge_urls_fold(urls0, meta0, batch);
            let x = batch[k].url@;
            let rid = merge_url_spec(p.0, batch[k]).1.resolved();
            &&& rid is Some
            &&& q.2 == p.2.insert(batch[k].id, rid->Some_0)
            &&& has_url(fin.0, x)
            &&& fin.0[url_index(fin.0, x)].id == rid->Some_0
            &&& fin.0[url_index(fin.0, x)].last_seen.secs >= batch[k].last_seen.secs
            &&& has_metadata(fin.1, rid->Some_0)
        }),
{
    lemma_urls_after_start(urls0, meta0, batch);
    lemma_urls_after_keeps(urls0, meta0, batch, 0, k, seq![], 0);
    let p = urls_after(urls0, meta0, batch, k);
    let q = urls_after(urls0, meta0, batch, k + 1);
    let u = batch[k];
    let x = u.url@;
    lemma_urls_after_step(urls0, meta0, batch, k);
    lemma_merge_url_wf(p.0, u);
    let r = merge_url_spec(p.0, u).1;
    let rid = r.resolved()->Some_0;
    lemma_merge_metadata_keeps(p.1, empty_metadata(rid), rid);
    // after the step, the text is stored under `rid`, no earlier than the batch says
    if has_url(p.0, x) {
        let i = url_index(p.0, x);
        assert(p.0[i].url@ == x);
        assert(q.0[i].url@ == x);
        lemma_url_index(q.0, x, i);
        assert(q.0[i] == advanced(p.0[i], u.last_seen));
    } else {
        let i = p.0.len() as int;
        assert(q.0[i] == u);
        lemma_url_index(q.0, x, i);
    }
    lemma_urls_after_keeps(urls0, meta0, batch, k + 1, batch.len() as int, x, rid);
    lemma_urls_after_all(urls0, meta0, batch);
}

/// A turned-away URL is turned away again by the merged store, as long as its text was not
/// stored since.
proof fn lemma_turned_away_again(urls0: Seq<UrlRecord>, meta0: Seq<MetadataRecord>, batch: Seq<UrlRecord>, k: int)
    requires
        urls_wf(urls0),
        0 <= k < batch.len(),
        turned_away(urls0, meta0, batch, k),
        !has_url(merge_urls_fold(urls0, meta0, batch).0, batch[k].url@),
    ensures
        merge_url_spec(merge_urls_fold(urls0, meta0, batch).0, batch[k]).1 is Rejected,
        merge_url_spec(merge_urls_fold(urls0, meta0, batch).0, batch[k]).0 == merge_urls_fold(urls0, meta0, batch).0,
{
    let u = batch[k];
    let p = urls_after(urls0, meta0, batch, k);
    let fin = merge_urls_fold(urls0, meta0, batch);
    lemma_urls_after_start(urls0, meta0, batch);
    lemma_urls_after_keeps(urls0, meta0, batch, 0, k, seq![], 0);
    assert(url_id_taken(p.0, u.id));
    let j = choose|j: int| 0 <= j < p.0.len() && (#[trigger] p.0[j]).id == u.id;
    let y = p.0[j].url@;
    lemma_url_index(p.0, y, j);
    lemma_urls_after_keeps(urls0, meta0, batch, k, batch.len() as int, y, 0);
    lemma_urls_after_all(urls0, meta0, batch);
    let i = url_index(fin.0, y);
    assert(fin.0[i].id == u.id);
    assert(url_id_taken(fin.0, u.id));
}

/// Merging the URLs of a batch a second time leaves URLs and metadata as they are, inserts
/// nothing, and resolves every URL as the first time.
proof fn lemma_second_pass_urls(
    urls0: Seq<UrlRecord>,
    meta0: Seq<MetadataRecord>,
    batch: Seq<UrlRecord>,
    k: int,
)
    requires
        urls_wf(urls0),
        forall|j: int|
            0 <= j < batch.len() && turned_away(urls0, meta0, batch, j) ==> !has_url(
                merge_urls_fold(urls0, meta0, batch).0,
                (#[trigger] batch[j]).url@,
            ),
        0 <= k <= batch.len(),
    ensures
        ({
            let fin = merge_urls_fold(urls0, meta0, batch);
            let second = urls_after(fin.0, fin.1, batch, k);
            &&& second.0 == fin.0
            &&& second.1 == fin.1
            &&& second.2 == urls_after(urls0, meta0, batch, k).2
            &&& second.3 == 0
            &&& second.5 == 0
        }),
    decreases k,
{
    let fin = merge_urls_fold(urls0, meta0, batch);
    if k == 0 {
        assert(batch.subrange(0, 0) =~= Seq::<UrlRecord>::empty());
    } else {
        lemma_second_pass_urls(urls0, meta0, batch, k - 1);
        lemma_urls_after_step(fin.0, fin.1, batch, k - 1);
        lemma_urls_after_step(urls0, meta0, batch, k - 1);
        let u = batch[k - 1];
        if turned_away(urls0, meta0, batch, k - 1) {
            lemma_turned_away_again(urls0, meta0, batch, k - 1);
        } else {
            lemma_first_pass_url(urls0, meta0, batch, k - 1);
            let x = u.url@;
            let i = url_index(fin.0, x);
            assert(fin.0[i].url@ == x);
            assert(advanced(fin.0[i], u.last_seen) == fin.0[i]);
            assert(fin.0.update(i, fin.0[i]) =~= fin.0);
            let rid = fin.0[i].id;
            assert(merge_url_spec(fin.0, u).1 == UrlMerge::Updated(rid));
            assert(!empty_metadata(rid).is_enriched);
        }
    }
}

/// Batch ids that agree with URL texts never get a URL turned away.
pub proof fn lemma_consistent_ids_turn_nothing_away(s: HistoryStore, batch: Seq<UrlRecord>)
    requires
        urls_wf(s.urls@),
        ids_consistent(s.urls@, batch),
    ensures
        !turned_away_but_stored(s, batch),
        forall|k: int| 0 <= k < batch.len() ==> !turned_away(s.urls@, s.metadata@, batch, k),
{
    assert forall|k: int| 0 <= k < batch.len() implies !turned_away(s.urls@, s.metadata@, batch, k) by {
        lemma_consistent_prefix(s.urls@, s.metadata@, batch, k);
        lemma_consistent_step(urls_after(s.urls@, s.metadata@, batch, k).0, batch, k);
    }
}

/// In the first pass the URL state stays well-formed and consistent with the batch ids.
proof fn lemma_consistent_prefix(urls0: Seq<UrlRecord>, meta0: Seq<MetadataRecord>, batch: Seq<UrlRecord>, k: int)
    requires
        urls_wf(urls0),
        ids_consistent(urls0, batch),
        0 <= k <= batch.len(),
    ensures
        urls_wf(urls_after(urls0, meta0, batch, k).0),
        ids_consistent(urls_after(urls0, meta0, batch, k).0, batch),
    decreases k,
{
    if k == 0 {
        assert(batch.subrange(0, 0) =~= Seq::<UrlRecord>::empty());
    } else {
        lemma_consistent_prefix(urls0, meta0, batch, k - 1);
        let p = urls_after(urls0, meta0, batch, k - 1);
        lemma_urls_after_step(urls0, meta0, batch, k - 1);
        lemma_consistent_step(p.0, batch, k - 1);
        lemma_merge_url_wf(p.0, batch[k - 1]);
    }
}

/// The visit state after the first `n` visits of a batch.
pub open spec fn visits_after(visits0: Seq<VisitRecord>, batch: Seq<VisitRecord>, ids: Map<u128, u128>, n: int) -> (
    Seq<VisitRecord>,
    nat,
    nat,
    Seq<Seq<char>>,
) {
    merge_visits_fold(visits0, batch.subrange(0, n), ids)
}

proof fn lemma_visits_after_step(visits0: Seq<VisitRecord>, batch: Seq<VisitRecord>, ids: Map<u128, u128>, n: int)
    requires
        0 <= n < batch.len(),
    ensures
        ({
            let p = visits_after(visits0, batch, ids, n);
            let q = visits_after(visits0, batch, ids, n + 1);
            let (visits, outcome) = merge_visit_spec(p.0, batch[n], resolve(ids, batch[n].url_id));
            &&& q.0 == visits
            &&& q.1 == (if outcome is Inserted { p.1 + 1 } else { p.1 })
        }),
{
    assert(batch.subrange(0, n + 1).drop_last() =~= batch.subrange(0, n));
    assert(batch.subrange(0, n + 1).last() == batch[n]);
}

/// The visits stored after `k` steps are the first ones stored after `n >= k` steps.
proof fn lemma_visits_grow(visits0: Seq<VisitRecord>, batch: Seq<VisitRecord>, ids: Map<u128, u128>, k: int, n: int)
    requires
        0 <= k <= n <= batch.len(),
    ensures
        visits_after(visits0, batch, ids, k).0.len() <= visits_after(visits0, batch, ids, n).0.len(),
        forall|i: int|
            0 <= i < visits_after(visits0, batch, ids, k).0.len() ==> visits_after(visits0, batch, ids, n).0[i]
                == visits_after(visits0, batch, ids, k).0[i],
    decreases n - k,
{
    if n > k {
        lemma_visits_grow(visits0, batch, ids, k, n - 1);
        lemma_visits_after_step(visits0, batch, ids, n - 1);
    }
}

/// Merging the visits of a batch a second time, with the same resolution, stores nothing.
proof fn lemma_second_pass_visits(
    visits0: Seq<VisitRecord>,
    batch: Seq<VisitRecord>,
    ids: Map<u128, u128>,
    k: int,
)
    requires
        0 <= k <= batch.len(),
    ensures
        ({
            let fin = merge_visits_fold(visits0, batch, ids);
            let second = visits_after(fin.0, batch, ids, k);
            &&& second.0 == fin.0
            &&& second.1 == 0
        }),
    decreases k,
{
    let fin = merge_visits_fold(visits0, batch, ids);
    let n = batch.len() as int;
    assert(batch.subrange(0, n) =~= batch);
    if k == 0 {
        assert(batch.subrange(0, 0) =~= Seq::<VisitRecord>::empty());
    } else {
        lemma_second_pass_visits(visits0, batch, ids, k - 1);
        lemma_visits_after_step(fin.0, batch, ids, k - 1);
        let v = batch[k - 1];
        let r = resolve(ids, v.url_id);
        if let Some(id) = r {
            if !has_visit(fin.0, id, v.visited_at, v.source_file@) {
                let p = visits_after(visits0, batch, ids, k - 1);
                lemma_visits_after_step(visits0, batch, ids, k - 1);
                lemma_visits_grow(visits0, batch, ids, k - 1, n);
                lemma_visits_grow(visits0, batch, ids, k, n);
                let q = visits_after(visits0, batch, ids, k);
                if has_visit(p.0, id, v.visited_at, v.source_file@) {
                    let w = choose|w: int|
                        0 <= w < p.0.len() && crate::store::same_event(
                            #[trigger] p.0[w],
                            id,
                            v.visited_at,
                            v.source_file@,
                        );
                    assert(fin.0[w] == p.0[w]);
                    assert(false);
                }
                if visit_id_taken(p.0, v.id) {
                    let w = choose|w: int| 0 <= w < p.0.len() && (#[trigger] p.0[w]).id == v.id;
                    assert(fin.0[w] == p.0[w]);
                    assert(visit_id_taken(fin.0, v.id));
                } else {
                    let w = p.0.len() as int;
                    assert(q.0[w] == crate::store::attached(v, id));
                    assert(fin.0[w] == q.0[w]);
                    assert(crate::store::same_event(fin.0[w], id, v.visited_at, v.source_file@));
                    assert(false);
                }
            }
        }
    }
}

/// Merging the same batch a second time changes nothing: no URL, visit or metadata record
/// is added, and every stored record stays as the first merge left it (so `last_seen` too).
/// Left out are the batches whose first merge turns a URL away for its id yet stores its
/// text through a later URL; batches with consistent ids are never such.
pub proof fn lemma_reingest_is_idempotent(
    s0: HistoryStore,
    urls: Seq<UrlRecord>,
    visits: Seq<VisitRecord>,
    s1: HistoryStore,
    stats1: crate::store::InsertStats,
    s2: HistoryStore,
    stats2: crate::store::InsertStats,
)
    requires
        s0.wf(),
        !turned_away_but_stored(s0, urls),
        merged_batch(s0, urls, visits, s1, stats1),
        merged_batch(s1, urls, visits, s2, stats2),
    ensures
        s2.urls@ == s1.urls@,
        s2.metadata@ == s1.metadata@,
        s2.visits@ == s1.visits@,
        stats2.urls_inserted == 0,
        stats2.metadata_inserted == 0,
        stats2.visits_inserted == 0,
{
    let n = urls.len() as int;
    assert forall|j: int|
        0 <= j < urls.len() && turned_away(s0.urls@, s0.metadata@, urls, j) implies !has_url(
        merge_urls_fold(s0.urls@, s0.metadata@, urls).0,
        (#[trigger] urls[j]).url@,
    ) by {}
    lemma_second_pass_urls(s0.urls@, s0.metadata@, urls, n);
    lemma_urls_after_all(s0.urls@, s0.metadata@, urls);
    let fin = merge_urls_fold(s0.urls@, s0.metadata@, urls);
    lemma_urls_after_all(fin.0, fin.1, urls);
    let m = visits.len() as int;
    lemma_second_pass_visits(s0.visits@, visits, fin.2, m);
    assert(visits.subrange(0, m) =~= visits);
}

/// Across any sequence of batch merges, `stores[i + 1]` being `stores[i]` with `batches[i]`
/// merged, a stored URL stays stored with its id and `first_seen`, and its `last_seen` never
/// moves back.
pub proof fn lemma_last_seen_monotonic_across_merges(
    stores: Seq<HistoryStore>,
    batches: Seq<(Seq<UrlRecord>, Seq<VisitRecord>)>,
    stats: Seq<crate::store::InsertStats>,
    x: Seq<char>,
)
    requires
        stores.len() == batches.len() + 1,
        stats.len() == batches.len(),
        stores[0].wf(),
        forall|i: int|
            0 <= i < batches.len() ==> merged_batch(
                #[trigger] stores[i],
                batches[i].0,
                batches[i].1,
                stores[i + 1],
                stats[i],
            ),
        has_url(stores[0].urls@, x),
    ensures
        keeps_url(stores[0].urls@, stores.last().urls@, x),
    decreases batches.len(),
{
    let n = batches.len() as int;
    if n == 0 {
        lemma_keeps_url_refl(stores[0].urls@, x);
    } else {
        let init = stores.drop_last();
        lemma_last_seen_monotonic_across_merges(init, batches.drop_last(), stats.drop_last(), x);
        lemma_urls_wf_across_merges(init, batches.drop_last(), stats.drop_last());
        assert(merged_batch(stores[n - 1], batches[n - 1].0, batches[n - 1].1, stores[n], stats[n - 1]));
        lemma_last_seen_monotonic(stores[n - 1], batches[n - 1].0, batches[n - 1].1, stores[n], stats[n - 1], x);
        lemma_keeps_url_trans(stores[0].urls@, stores[n - 1].urls@, stores[n].urls@, x);
    }
}

proof fn lemma_urls_wf_across_merges(
    stores: Seq<HistoryStore>,
    batches: Seq<(Seq<UrlRecord>, Seq<VisitRecord>)>,
    stats: Seq<crate::store::InsertStats>,
)
    requires
        stores.len() == batches.len() + 1,
        stats.len() == batches.len(),
        stores[0].wf(),
        forall|i: int|
            0 <= i < batches.len() ==> merged_batch(
                #[trigger] stores[i],
                batches[i].0,
                batches[i].1,
                stores[i + 1],
                stats[i],
            ),
    ensures
        urls_wf(stores.last().urls@),
    decreases batches.len(),
{
    let n = batches.len() as int;
    if n > 0 {
        let init = stores.drop_last();
        lemma_urls_wf_across_merges(init, batches.drop_last(), stats.drop_last());
        assert(merged_batch(stores[n - 1], batches[n - 1].0, batches[n - 1].1, stores[n], stats[n - 1]));
        let s = stores[n - 1];
        assert(batches[n - 1].0.subrange(0, 0) =~= Seq::<UrlRecord>::empty());
        lemma_urls_after_keeps(s.urls@, s.metadata@, batches[n - 1].0, 0, batches[n - 1].0.len() as int, seq![], 0);
        lemma_urls_after_all(s.urls@, s.metadata@, batches[n - 1].0);
    }
}

// ---------------------------------------------------------------- merging a re-extracted batch

/// The batch `(u2, v2)` is `(u1, v1)` under other ids: the same URL texts and `last_seen`
/// in the same order, the same visit events in the same order, each visit naming the URL at
/// the same position.
pub open spec fn same_but_ids(
    u1: Seq<UrlRecord>,
    v1: Seq<VisitRecord>,
    u2: Seq<UrlRecord>,
    v2: Seq<VisitRecord>,
) -> bool {
    &&& u1.len() == u2.len()
    &&& forall|i: int|
        0 <= i < u1.len() ==> (#[trigger] u2[i]).url@ == u1[i].url@ && u2[i].last_seen == u1[i].last_seen
    &&& v1.len() == v2.len()
    &&& forall|k: int|
        0 <= k < v1.len() ==> (#[trigger] v2[k]).visited_at == v1[k].visited_at && v2[k].source_file@
            == v1[k].source_file@
    &&& forall|k: int, i: int|
        0 <= k < v1.len() && 0 <= i < u1.len() ==> ((#[trigger] v1[k]).url_id == (#[trigger] u1[i]).id
            <==> v2[k].url_id == u2[i].id)
}

/// No two URLs of the batch share an id.
pub open spec fn distinct_url_ids(u: Seq<UrlRecord>) -> bool {
    forall|i: int, j: int| 0 <= i < u.len() && 0 <= j < u.len() && i != j ==> (#[trigger] u[i]).id != (#[trigger] u[j]).id
}

/// The merge of the batch turns no visit away for its id.
pub open spec fn no_visit_turned_away(s: HistoryStore, urls: Seq<UrlRecord>, visits: Seq<VisitRecord>) -> bool {
    let ids = merge_urls_fold(s.urls@, s.metadata@, urls).2;
    forall|k: int|
        0 <= k < visits.len() ==> !(merge_visit_spec(
            visits_after(s.visits@, visits, ids, k).0,
            #[trigger] visits[k],
            resolve(ids, visits[k].url_id),
        ).1 is Rejected)
}

/// The stored id that the `i`-th batch URL resolved to in the first merge.
pub open spec fn first_resolution(urls0: Seq<UrlRecord>, meta0: Seq<MetadataRecord>, batch: Seq<UrlRecord>, i: int) -> u128 {
    merge_url_spec(urls_after(urls0, meta0, batch, i).0, batch[i]).1.resolved()->Some_0
}

/// With distinct ids and no URL turned away, the batch id of each URL resolves to where
/// that URL was merged, and no other id resolves.
proof fn lemma_first_map(urls0: Seq<UrlRecord>, meta0: Seq<MetadataRecord>, batch: Seq<UrlRecord>, n: int)
    requires
        urls_wf(urls0),
        distinct_url_ids(batch),
        forall|i: int| 0 <= i < batch.len() ==> !turned_away(urls0, meta0, batch, i),
        0 <= n <= batch.len(),
    ensures
        forall|key: u128|
            #[trigger] urls_after(urls0, meta0, batch, n).2.contains_key(key) <==> exists|i: int|
                0 <= i < n && batch[i].id == key,
        forall|i: int|
            0 <= i < n ==> urls_after(urls0, meta0, batch, n).2[(#[trigger] batch[i]).id] == first_resolution(
                urls0,
                meta0,
                batch,
                i,
            ),
    decreases n,
{
    if n == 0 {
        assert(batch.subrange(0, 0) =~= Seq::<UrlRecord>::empty());
    } else {
        lemma_first_map(urls0, meta0, batch, n - 1);
        lemma_first_pass_url(urls0, meta0, batch, n - 1);
        let m = urls_after(urls0, meta0, batch, n).2;
        assert forall|key: u128| #[trigger] m.contains_key(key) <==> exists|i: int| 0 <= i < n && batch[i].id == key by {
            if m.contains_key(key) && key != batch[n - 1].id {
                let i = choose|i: int| 0 <= i < n - 1 && batch[i].id == key;
            }
            if exists|i: int| 0 <= i < n && batch[i].id == key {
                let i = choose|i: int| 0 <= i < n && batch[i].id == key;
                if i < n - 1 {
                    assert(urls_after(urls0, meta0, batch, n - 1).2.contains_key(key));
                }
            }
        }
        assert forall|i: int| 0 <= i < n implies m[(#[trigger] batch[i]).id] == first_resolution(urls0, meta0, batch, i) by {
            if i < n - 1 {
                assert(batch[i].id != batch[n - 1].id);
            }
        }
    }
}

/// Merging `u2` after `u1` leaves URLs and metadata as they are, inserts nothing, and
/// resolves each URL of `u2` where the URL at its position in `u1` was merged.
proof fn lemma_second_map(
    urls0: Seq<UrlRecord>,
    meta0: Seq<MetadataRecord>,
    u1: Seq<UrlRecord>,
    u2: Seq<UrlRecord>,
    k: int,
)
    requires
        urls_wf(urls0),
        forall|i: int| 0 <= i < u1.len() ==> !turned_away(urls0, meta0, u1, i),
        distinct_url_ids(u2),
        u1.len() == u2.len(),
        forall|i: int|
            0 <= i < u1.len() ==> (#[trigger] u2[i]).url@ == u1[i].url@ && u2[i].last_seen == u1[i].last_seen,
        0 <= k <= u2.len(),
    ensures
        ({
            let fin = merge_urls_fold(urls0, meta0, u1);
            let second = urls_after(fin.0, fin.1, u2, k);
            &&& second.0 == fin.0
            &&& second.1 == fin.1
            &&& second.3 == 0
            &&& second.5 == 0
            &&& forall|key: u128|
                #[trigger] second.2.contains_key(key) <==> exists|i: int| 0 <= i < k && u2[i].id == key
            &&& forall|i: int|
                0 <= i < k ==> second.2[(#[trigger] u2[i]).id] == first_resolution(urls0, meta0, u1, i)
        }),
    decreases k,
{
    let fin = merge_urls_fold(urls0, meta0, u1);
    if k == 0 {
        assert(u2.subrange(0, 0) =~= Seq::<UrlRecord>::empty());
    } else {
        lemma_second_map(urls0, meta0, u1, u2, k - 1);
        lemma_urls_after_step(fin.0, fin.1, u2, k - 1);
        lemma_first_pass_url(urls0, meta0, u1, k - 1);
        let u = u2[k - 1];
        let x = u.url@;
        assert(x == u1[k - 1].url@);
        let i = url_index(fin.0, x);
        assert(fin.0[i].url@ == x);
        assert(advanced(fin.0[i], u.last_seen) == fin.0[i]);
        assert(fin.0.update(i, fin.0[i]) =~= fin.0);
        let rid = fin.0[i].id;
        assert(merge_url_spec(fin.0, u).1 == UrlMerge::Updated(rid));
        assert(!empty_metadata(rid).is_enriched);
        let prev = urls_after(fin.0, fin.1, u2, k - 1).2;
        let m = urls_after(fin.0, fin.1, u2, k).2;
        assert(m == prev.insert(u.id, rid));
        assert forall|key: u128| #[trigger] m.contains_key(key) <==> exists|j: int| 0 <= j < k && u2[j].id == key by {
            if m.contains_key(key) && key != u.id {
                assert(prev.contains_key(key));
            }
            if exists|j: int| 0 <= j < k && u2[j].id == key {
                let j = choose|j: int| 0 <= j < k && u2[j].id == key;
                if j < k - 1 {
                    assert(prev.contains_key(key));
                }
            }
        }
        assert forall|j: int| 0 <= j < k implies m[(#[trigger] u2[j]).id] == first_resolution(urls0, meta0, u1, j) by {
            if j < k - 1 {
                assert(u2[j].id != u2[k - 1].id);
            }
        }
    }
}

/// Merging visits that resolve and look like the first merge's stores nothing.
proof fn lemma_second_visits_other(
    s0: HistoryStore,
    u1: Seq<UrlRecord>,
    v1: Seq<VisitRecord>,
    v2: Seq<VisitRecord>,
    ids2: Map<u128, u128>,
    k: int,
)
    requires
        no_visit_turned_away(s0, u1, v1),
        v1.len() == v2.len(),
        forall|j: int|
            0 <= j < v1.len() ==> (#[trigger] v2[j]).visited_at == v1[j].visited_at && v2[j].source_file@
                == v1[j].source_file@,
        forall|j: int|
            0 <= j < v1.len() ==> resolve(ids2, (#[trigger] v2[j]).url_id) == resolve(
                merge_urls_fold(s0.urls@, s0.metadata@, u1).2,
                v1[j].url_id,
            ),
        0 <= k <= v2.len(),
    ensures
        ({
            let ids1 = merge_urls_fold(s0.urls@, s0.metadata@, u1).2;
            let fin = merge_visits_fold(s0.visits@, v1, ids1);
            let second = visits_after(fin.0, v2, ids2, k);
            &&& second.0 == fin.0
            &&& second.1 == 0
        }),
    decreases k,
{
    let ids1 = merge_urls_fold(s0.urls@, s0.metadata@, u1).2;
    let fin = merge_visits_fold(s0.visits@, v1, ids1);
    let n = v1.len() as int;
    assert(v1.subrange(0, n) =~= v1);
    if k == 0 {
        assert(v2.subrange(0, 0) =~= Seq::<VisitRecord>::empty());
    } else {
        lemma_second_visits_other(s0, u1, v1, v2, ids2, k - 1);
        lemma_visits_after_step(fin.0, v2, ids2, k - 1);
        let v = v2[k - 1];
        let w = v1[k - 1];
        let r = resolve(ids2, v.url_id);
        assert(r == resolve(ids1, w.url_id));
        if let Some(id) = r {
            if !has_visit(fin.0, id, v.visited_at, v.source_file@) {
                let p = visits_after(s0.visits@, v1, ids1, k - 1);
                lemma_visits_after_step(s0.visits@, v1, ids1, k - 1);
                lemma_visits_grow(s0.visits@, v1, ids1, k - 1, n);
                lemma_visits_grow(s0.visits@, v1, ids1, k, n);
                let q = visits_after(s0.visits@, v1, ids1, k);
                assert(!(merge_visit_spec(p.0, v1[k - 1], resolve(ids1, v1[k - 1].url_id)).1 is Rejected));
                if has_visit(p.0, id, w.visited_at, w.source_file@) {
                    let x = choose|x: int|
                        0 <= x < p.0.len() && crate::store::same_event(
                            #[trigger] p.0[x],
                            id,
                            w.visited_at,
                            w.source_file@,
                        );
                    assert(fin.0[x] == p.0[x]);
                    assert(false);
                }
                let x = p.0.len() as int;
                assert(q.0[x] == crate::store::attached(w, id));
                assert(fin.0[x] == q.0[x]);
                assert(crate::store::same_event(fin.0[x], id, v.visited_at, v.source_file@));
                assert(false);
            }
        }
    }
}

/// Merging a re-extraction of an already merged batch changes nothing: the same URLs and
/// visit events under fresh ids add no URL, visit or metadata record and leave every stored
/// record, `last_seen` included, as it was. Left out are first merges that turned a URL or a
/// visit away for its id, and batches where two URLs share an id.
#[verifier::rlimit(40)]
pub proof fn lemma_reextracted_batch_changes_nothing(
    s0: HistoryStore,
    u1: Seq<UrlRecord>,
    v1: Seq<VisitRecord>,
    s1: HistoryStore,
    stats1: crate::store::InsertStats,
    u2: Seq<UrlRecord>,
    v2: Seq<VisitRecord>,
    s2: HistoryStore,
    stats2: crate::store::InsertStats,
)
    requires
        s0.wf(),
        forall|i: int| 0 <= i < u1.len() ==> !turned_away(s0.urls@, s0.metadata@, u1, i),
        no_visit_turned_away(s0, u1, v1),
        distinct_url_ids(u1),
        distinct_url_ids(u2),
        same_but_ids(u1, v1, u2, v2),
        merged_batch(s0, u1, v1, s1, stats1),
        merged_batch(s1, u2, v2, s2, stats2),
    ensures
        s2.urls@ == s1.urls@,
        s2.metadata@ == s1.metadata@,
        s2.visits@ == s1.visits@,
        stats2.urls_inserted == 0,
        stats2.metadata_inserted == 0,
        stats2.visits_inserted == 0,
{
    let n = u1.len() as int;
    let fin = merge_urls_fold(s0.urls@, s0.metadata@, u1);
    lemma_first_map(s0.urls@, s0.metadata@, u1, n);
    lemma_urls_after_all(s0.urls@, s0.metadata@, u1);
    lemma_second_map(s0.urls@, s0.metadata@, u1, u2, n);
    lemma_urls_after_all(fin.0, fin.1, u2);
    let ids1 = fin.2;
    let ids2 = merge_urls_fold(fin.0, fin.1, u2).2;
    assert forall|j: int| 0 <= j < v1.len() implies resolve(ids2, (#[trigger] v2[j]).url_id) == resolve(
        ids1,
        v1[j].url_id,
    ) by {
        if exists|i: int| 0 <= i < n && u1[i].id == v1[j].url_id {
            let i = choose|i: int| 0 <= i < n && u1[i].id == v1[j].url_id;
            assert(v2[j].url_id == u2[i].id);
            assert(ids1.contains_key(u1[i].id));
            assert(ids2.contains_key(u2[i].id));
        } else {
            assert(!ids1.contains_key(v1[j].url_id));
            if ids2.contains_key(v2[j].url_id) {
                let i = choose|i: int| 0 <= i < n && u2[i].id == v2[j].url_id;
                assert(v1[j].url_id == u1[i].id);
            }
        }
    }
    let m = v1.len() as int;
    lemma_second_visits_other(s0, u1, v1, v2, ids2, m);
    assert(v2.subrange(0, m) =~= v2);
}

// ---------------------------------------------------------------- merging into an empty store

pub open spec fn distinct_url_texts(u: Seq<UrlRecord>) -> bool {
    forall|i: int, j: int| 0 <= i < u.len() && 0 <= j < u.len() && i != j ==> (#[trigger] u[i]).url@ != (#[trigger] u[j]).url@
}

/// Some URL of the batch has id `id`.
pub open spec fn names_batch_url(u: Seq<UrlRecord>, id: u128) -> bool {
    exists|i: int| 0 <= i < u.len() && u[i].id == id
}

/// No two visits of the batch share an id or an event.
pub open spec fn distinct_visits(v: Seq<VisitRecord>) -> bool {
    forall|a: int, b: int|
        0 <= a < v.len() && 0 <= b < v.len() && a != b ==> (#[trigger] v[a]).id != (#[trigger] v[b]).id
            && !crate::store::same_event(v[a], v[b].url_id, v[b].visited_at, v[b].source_file@)
}

pub open spec fn empty_metadata_of(u: Seq<UrlRecord>) -> Seq<MetadataRecord> {
    u.map_values(|r: UrlRecord| empty_metadata(r.id))
}

proof fn lemma_fresh_urls(u: Seq<UrlRecord>, n: int)
    requires
        distinct_url_texts(u),
        distinct_url_ids(u),
        0 <= n <= u.len(),
    ensures
        ({
            let p = urls_after(seq![], seq![], u, n);
            &&& p.0 == u.subrange(0, n)
            &&& p.1 == empty_metadata_of(u.subrange(0, n))
            &&& p.3 == n
            &&& p.5 == n
            &&& forall|key: u128| #[trigger] p.2.contains_key(key) <==> exists|i: int| 0 <= i < n && u[i].id == key
            &&& forall|i: int| 0 <= i < n ==> p.2[(#[trigger] u[i]).id] == u[i].id
        }),
    decreases n,
{
    if n == 0 {
        assert(u.subrange(0, 0) =~= Seq::<UrlRecord>::empty());
        assert(empty_metadata_of(u.subrange(0, 0)) =~= Seq::<MetadataRecord>::empty());
    } else {
        lemma_fresh_urls(u, n - 1);
        lemma_urls_after_step(seq![], seq![], u, n - 1);
        let p = urls_after(seq![], seq![], u, n - 1);
        let x = u[n - 1];
        assert(!has_url(p.0, x.url@)) by {
            if has_url(p.0, x.url@) {
                let i = choose|i: int| 0 <= i < p.0.len() && (#[trigger] p.0[i]).url@ == x.url@;
                assert(u[i].url@ != u[n - 1].url@);
            }
        }
        assert(!url_id_taken(p.0, x.id)) by {
            if url_id_taken(p.0, x.id) {
                let i = choose|i: int| 0 <= i < p.0.len() && (#[trigger] p.0[i]).id == x.id;
                assert(u[i].id != u[n - 1].id);
            }
        }
        assert(!has_metadata(p.1, x.id)) by {
            if has_metadata(p.1, x.id) {
                let i = choose|i: int| 0 <= i < p.1.len() && (#[trigger] p.1[i]).url_id == x.id;
                assert(p.1[i] == empty_metadata(u[i].id));
                assert(u[i].id != u[n - 1].id);
            }
        }
        assert(p.0.push(x) =~= u.subrange(0, n));
        assert(p.1.push(empty_metadata(x.id)) =~= empty_metadata_of(u.subrange(0, n)));
        let q = urls_after(seq![], seq![], u, n);
        assert forall|key: u128| #[trigger] q.2.contains_key(key) <==> exists|i: int| 0 <= i < n && u[i].id == key by {
            if q.2.contains_key(key) && key != x.id {
                assert(p.2.contains_key(key));
            }
            if exists|i: int| 0 <= i < n && u[i].id == key {
                let i = choose|i: int| 0 <= i < n && u[i].id == key;
                if i < n - 1 {
                    assert(p.2.contains_key(key));
                }
            }
        }
        assert forall|i: int| 0 <= i < n implies q.2[(#[trigger] u[i]).id] == u[i].id by {
            if i < n - 1 {
                assert(u[i].id != u[n - 1].id);
            }
        }
    }
}

proof fn lemma_fresh_visits(v: Seq<VisitRecord>, ids: Map<u128, u128>, n: int)
    requires
        distinct_visits(v),
        forall|k: int| 0 <= k < v.len() ==> ids.contains_key((#[trigger] v[k]).url_id) && ids[v[k].url_id] == v[k].url_id,
        0 <= n <= v.len(),
    ensures
        visits_after(seq![], v, ids, n).0 == v.subrange(0, n),
        visits_after(seq![], v, ids, n).1 == n,
    decreases n,
{
    if n == 0 {
        assert(v.subrange(0, 0) =~= Seq::<VisitRecord>::empty());
    } else {
        lemma_fresh_visits(v, ids, n - 1);
        lemma_visits_after_step(seq![], v, ids, n - 1);
        let p = visits_after(seq![], v, ids, n - 1);
        let x = v[n - 1];
        assert(resolve(ids, x.url_id) == Some(x.url_id));
        assert(!has_visit(p.0, x.url_id, x.visited_at, x.source_file@)) by {
            if has_visit(p.0, x.url_id, x.visited_at, x.source_file@) {
                let i = choose|i: int|
                    0 <= i < p.0.len() && crate::store::same_event(#[trigger] p.0[i], x.url_id, x.visited_at, x.source_file@);
                assert(p.0[i] == v[i]);
                assert(!crate::store::same_event(v[i], v[n - 1].url_id, v[n - 1].visited_at, v[n - 1].source_file@));
            }
        }
        assert(!visit_id_taken(p.0, x.id)) by {
            if visit_id_taken(p.0, x.id) {
                let i = choose|i: int| 0 <= i < p.0.len() && (#[trigger] p.0[i]).id == x.id;
                assert(p.0[i] == v[i]);
                assert(v[i].id != v[n - 1].id);
            }
        }
        assert(crate::store::attached(x, x.url_id) == x);
        assert(p.0.push(x) =~= v.subrange(0, n));
    }
}

/// Merging into an empty store a batch of URLs with distinct texts and ids, and of visits
/// with distinct ids and events that each name a URL of the batch, stores every URL with
/// empty metadata and every visit.
pub proof fn lemma_fresh_batch_is_stored_whole(
    s0: HistoryStore,
    urls: Seq<UrlRecord>,
    visits: Seq<VisitRecord>,
    s1: HistoryStore,
    stats: crate::store::InsertStats,
)
    requires
        s0.urls@.len() == 0,
        s0.metadata@.len() == 0,
        s0.visits@.len() == 0,
        distinct_url_texts(urls),
        distinct_url_ids(urls),
        distinct_visits(visits),
        forall|k: int| 0 <= k < visits.len() ==> names_batch_url(urls, (#[trigger] visits[k]).url_id),
        merged_batch(s0, urls, visits, s1, stats),
    ensures
        s1.urls@ == urls,
        s1.metadata@ == empty_metadata_of(urls),
        s1.visits@ == visits,
        stats.urls_inserted == urls.len(),
        stats.metadata_inserted == urls.len(),
        stats.visits_inserted == visits.len(),
{
    let n = urls.len() as int;
    assert(s0.urls@ =~= Seq::<UrlRecord>::empty());
    assert(s0.metadata@ =~= Seq::<MetadataRecord>::empty());
    assert(s0.visits@ =~= Seq::<VisitRecord>::empty());
    lemma_fresh_urls(urls, n);
    lemma_urls_after_all(seq![], seq![], urls);
    assert(urls.subrange(0, n) =~= urls);
    let ids = merge_urls_fold(seq![], seq![], urls).2;
    assert forall|k: int| 0 <= k < visits.len() implies ids.contains_key((#[trigger] visits[k]).url_id)
        && ids[visits[k].url_id] == visits[k].url_id by {
        assert(names_batch_url(urls, visits[k].url_id));
        let i = choose|i: int| 0 <= i < n && urls[i].id == visits[k].url_id;
        assert(ids[urls[i].id] == urls[i].id);
    }
    let m = visits.len() as int;
    lemma_fresh_visits(visits, ids, m);
    assert(visits.subrange(0, m) =~= visits);
}

} // verus!
