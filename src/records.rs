//! Canonical records: URLs, visits and their metadata.

use vstd::prelude::*;
use crate::timestamp::UtcTime;

verus! {

/// Relies on uuid's `Uuid::new_v4` (random bits), read as a `u128`; nothing is known of the value.
#[verifier::external_body]
pub(crate) fn new_record_id() -> (r: u128) {
    uuid::Uuid::new_v4().as_u128()
}

/// A copy of an optional text.
pub fn copy_opt_text(o: &Option<String>) -> (r: Option<String>)
    ensures
        r == *o,
{
    match o {
        Some(s) => Some(s.clone()),
        None => None,
    }
}

/// A URL of the canonical store; its identity across merges is the `url` text.
#[derive(Debug, Clone)]
pub struct UrlRecord {
    pub id: u128,
    pub url: String,
    pub title: Option<String>,
    pub domain: String,
    pub first_seen: UtcTime,
    pub last_seen: UtcTime,
}

/// One visit of a URL; its identity is (URL id, instant, source file).
#[derive(Debug, Clone)]
pub struct VisitRecord {
    pub id: u128,
    pub url_id: u128,
    pub visited_at: UtcTime,
    pub visit_count: i32,
    pub source_file: String,
    pub device_name: Option<String>,
    /// Whole seconds spent on the page, when the source knows it.
    pub duration_sec: Option<i64>,
}

/// Metadata of a URL, one record per URL id.
#[derive(Debug, Clone)]
pub struct MetadataRecord {
    pub url_id: u128,
    pub summary: Option<String>,
    pub keywords: Option<String>,
    pub tags: Option<String>,
    pub topic_cluster: Option<String>,
    pub is_enriched: bool,
}

/// URLs of an extraction batch.
pub type Url = UrlRecord;

/// Visits of an extraction batch.
pub type Visit = VisitRecord;

impl UrlRecord {
    /// A record under a freshly minted id.
    pub fn new(
        url: String,
        title: Option<String>,
        domain: String,
        first_seen: UtcTime,
        last_seen: UtcTime,
    ) -> (r: UrlRecord)
        ensures
            r.url == url,
            r.title == title,
            r.domain == domain,
            r.first_seen == first_seen,
            r.last_seen == last_seen,
    {
        UrlRecord { id: new_record_id(), url, title, domain, first_seen, last_seen }
    }

    /// An equal record.
    pub fn duplicate(&self) -> (r: UrlRecord)
        ensures
            r == *self,
    {
        UrlRecord {
            id: self.id,
            url: self.url.clone(),
            title: copy_opt_text(&self.title),
            domain: self.domain.clone(),
            first_seen: self.first_seen,
            last_seen: self.last_seen,
        }
    }
}

impl VisitRecord {
    /// A record under a freshly minted id.
    pub fn new(
        url_id: u128,
        visited_at: UtcTime,
        visit_count: i32,
        source_file: String,
        device_name: Option<String>,
        duration_sec: Option<i64>,
    ) -> (r: VisitRecord)
        ensures
            r.url_id == url_id,
            r.visited_at == visited_at,
            r.visit_count == visit_count,
            r.source_file == source_file,
            r.device_name == device_name,
            r.duration_sec == duration_sec,
    {
        VisitRecord {
            id: new_record_id(),
            url_id,
            visited_at,
            visit_count,
            source_file,
            device_name,
            duration_sec,
        }
    }

    /// An equal record.
    pub fn duplicate(&self) -> (r: VisitRecord)
        ensures
            r == *self,
    {
        VisitRecord {
            id: self.id,
            url_id: self.url_id,
            visited_at: self.visited_at,
            visit_count: self.visit_count,
            source_file: self.source_file.clone(),
            device_name: copy_opt_text(&self.device_name),
            duration_sec: self.duration_sec,
        }
    }
}

impl MetadataRecord {
    pub fn new(
        url_id: u128,
        summary: Option<String>,
        keywords: Option<String>,
        tags: Option<String>,
        topic_cluster: Option<String>,
        is_enriched: bool,
    ) -> (r: MetadataRecord)
        ensures
            r == (MetadataRecord { url_id, summary, keywords, tags, topic_cluster, is_enriched }),
    {
        MetadataRecord { url_id, summary, keywords, tags, topic_cluster, is_enriched }
    }

    /// The metadata that a URL gets when it is first stored: nothing known, not enriched.
    pub fn empty(url_id: u128) -> (r: MetadataRecord)
        ensures
            r == empty_metadata(url_id),
    {
        MetadataRecord {
            url_id,
            summary: None,
            keywords: None,
            tags: None,
            topic_cluster: None,
            is_enriched: false,
        }
    }

    /// An equal record.
    pub fn duplicate(&self) -> (r: MetadataRecord)
        ensures
            r == *self,
    {
        MetadataRecord {
            url_id: self.url_id,
            summary: copy_opt_text(&self.summary),
            keywords: copy_opt_text(&self.keywords),
            tags: copy_opt_text(&self.tags),
            topic_cluster: copy_opt_text(&self.topic_cluster),
            is_enriched: self.is_enriched,
        }
    }
}

pub open spec fn empty_metadata(url_id: u128) -> MetadataRecord {
    MetadataRecord {
        url_id,
        summary: None,
        keywords: None,
        tags: None,
        topic_cluster: None,
        is_enriched: false,
    }
}

} // verus!
