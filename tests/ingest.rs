use history_store::error::DatabaseError;
use history_store::extract::{extract_history, Cell, ForeignHistory, ForeignUrlRow, ForeignVisitRow, RawHistoryData};
use history_store::records::{MetadataRecord, UrlRecord, VisitRecord};
use history_store::store::{insert_history_data, HistoryStore, InsertStats, UrlMerge, VisitMerge};
use history_store::timestamp::UtcTime;

fn text(s: &str) -> Cell {
    Cell::Text(s.to_string())
}

fn url_row(id: i64, url: &str, title: &str, domain: &str, first: i64, last: i64) -> ForeignUrlRow {
    ForeignUrlRow {
        id: Cell::Integer(id),
        url: text(url),
        title: text(title),
        domain: text(domain),
        first_visit: Cell::Integer(first),
        last_visit: Cell::Integer(last),
    }
}

fn visit_row(id: i64, item: i64, time: i64) -> ForeignVisitRow {
    ForeignVisitRow { id: Cell::Integer(id), history_item: Cell::Integer(item), visit_time: Cell::Integer(time) }
}

fn mock_history() -> ForeignHistory {
    ForeignHistory {
        tables: vec!["history_items".to_string(), "history_visits".to_string()],
        url_rows: vec![
            url_row(1, "https://example.com", "Example Site", "example.com", 662688000, 662774400),
            url_row(2, "https://test.org/page1", "Test Page 1", "test.org", 662860800, 662860800),
            url_row(3, "https://test.org/page2", "Test Page 2", "test.org", 662947200, 663033600),
        ],
        visit_rows: vec![
            visit_row(6, 3, 663033600),
            visit_row(5, 3, 662947200),
            visit_row(4, 2, 662860800),
            visit_row(3, 1, 662774400),
            visit_row(2, 1, 662731200),
            visit_row(1, 1, 662688000),
        ],
    }
}

fn batch(path: &str) -> RawHistoryData {
    extract_history(path.to_string(), Some("Mac".to_string()), &mock_history()).unwrap()
}

fn url(id: u128, url: &str, first: i64, last: i64) -> UrlRecord {
    UrlRecord {
        id,
        url: url.to_string(),
        title: None,
        domain: "d.org".to_string(),
        first_seen: UtcTime { secs: first },
        last_seen: UtcTime { secs: last },
    }
}

fn visit(id: u128, url_id: u128, at: i64, source: &str) -> VisitRecord {
    VisitRecord {
        id,
        url_id,
        visited_at: UtcTime { secs: at },
        visit_count: 1,
        source_file: source.to_string(),
        device_name: None,
        duration_sec: None,
    }
}

fn raw(urls: Vec<UrlRecord>, visits: Vec<VisitRecord>) -> RawHistoryData {
    let mut data = RawHistoryData::new("f.db".to_string(), None);
    data.urls = urls;
    data.visits = visits;
    data
}

#[test]
fn first_ingest_inserts_everything() {
    let mut store = HistoryStore::new();
    let stats = insert_history_data(&mut store, &batch("/a/history.db"));
    assert_eq!(stats.urls_inserted, 3);
    assert_eq!(stats.visits_inserted, 6);
    assert_eq!(stats.metadata_inserted, 3);
    assert_eq!(stats.urls_updated, 0);
    assert_eq!(stats.total_inserted(), 12);
    assert!(!stats.has_errors());
    assert_eq!(store.urls.len(), 3);
    assert_eq!(store.visits.len(), 6);
    assert_eq!(store.metadata.len(), 3);
    for m in &store.metadata {
        assert!(!m.is_enriched);
        assert_eq!(m.summary, None);
    }
}

#[test]
fn second_ingest_of_same_file_inserts_nothing() {
    let data = batch("/a/history.db");
    let mut store = HistoryStore::new();
    insert_history_data(&mut store, &data);
    let last_seen: Vec<i64> = store.urls.iter().map(|u| u.last_seen.secs).collect();
    let stats = insert_history_data(&mut store, &data);
    assert_eq!(stats.urls_inserted, 0);
    assert_eq!(stats.visits_inserted, 0);
    assert_eq!(stats.metadata_inserted, 0);
    assert_eq!(stats.urls_updated, 3);
    assert_eq!(stats.visits_skipped, 6);
    assert!(!stats.has_errors());
    assert_eq!(store.urls.len(), 3);
    assert_eq!(store.visits.len(), 6);
    assert_eq!(store.metadata.len(), 3);
    let again: Vec<i64> = store.urls.iter().map(|u| u.last_seen.secs).collect();
    assert_eq!(last_seen, again);
}

#[test]
fn re_extracted_file_resolves_to_stored_urls() {
    let mut store = HistoryStore::new();
    insert_history_data(&mut store, &batch("/a/history.db"));
    // a fresh extraction mints new ids, yet the visits are known events
    let stats = insert_history_data(&mut store, &batch("/a/history.db"));
    assert_eq!(stats.visits_inserted, 0);
    assert_eq!(stats.visits_skipped, 6);
    assert_eq!(store.urls.len(), 3);
    assert_eq!(store.visits.len(), 6);
    // under another path the same visits are new events
    let stats = insert_history_data(&mut store, &batch("/b/history.db"));
    assert_eq!(stats.visits_inserted, 6);
    assert_eq!(stats.urls_inserted, 0);
    assert_eq!(store.visits.len(), 12);
}

#[test]
fn last_seen_only_moves_forward() {
    let mut store = HistoryStore::new();
    insert_history_data(&mut store, &raw(vec![url(1, "https://a.org", 100, 200)], vec![]));
    insert_history_data(&mut store, &raw(vec![url(2, "https://a.org", 50, 150)], vec![]));
    assert_eq!(store.urls[0].last_seen.secs, 200);
    assert_eq!(store.urls[0].first_seen.secs, 100);
    assert_eq!(store.urls[0].id, 1);
    insert_history_data(&mut store, &raw(vec![url(3, "https://a.org", 300, 400)], vec![]));
    assert_eq!(store.urls[0].last_seen.secs, 400);
    assert_eq!(store.urls[0].first_seen.secs, 100);
    assert_eq!(store.urls.len(), 1);
}

#[test]
fn url_id_held_by_another_url_is_an_error() {
    let mut store = HistoryStore::new();
    insert_history_data(&mut store, &raw(vec![url(1, "https://a.org", 100, 200)], vec![]));
    let stats = insert_history_data(
        &mut store,
        &raw(vec![url(1, "https://b.org", 100, 200)], vec![visit(10, 1, 150, "f.db")]),
    );
    assert_eq!(stats.urls_inserted, 0);
    assert_eq!(stats.visits_inserted, 0);
    assert_eq!(
        stats.errors,
        vec![
            "Failed to insert URL https://b.org: its id belongs to another URL".to_string(),
            "Failed to insert visit at 150 from f.db: its URL is not in the store".to_string(),
        ]
    );
    assert!(stats.has_errors());
    assert_eq!(store.urls.len(), 1);
    assert_eq!(store.visits.len(), 0);
}

#[test]
fn visit_id_held_by_another_visit_is_an_error() {
    let mut store = HistoryStore::new();
    let stats = insert_history_data(
        &mut store,
        &raw(
            vec![url(1, "https://a.org", 100, 200)],
            vec![visit(7, 1, 150, "f.db"), visit(7, 1, -20, "f.db"), visit(8, 1, 150, "f.db")],
        ),
    );
    assert_eq!(stats.visits_inserted, 1);
    assert_eq!(stats.visits_skipped, 1);
    assert_eq!(stats.errors, vec!["Failed to insert visit at -20 from f.db: its id belongs to another visit".to_string()]);
}

#[test]
fn single_record_merges() {
    let mut store = HistoryStore::new();
    assert_eq!(store.insert_url(&url(1, "https://a.org", 1, 2)), UrlMerge::Inserted(1));
    assert_eq!(store.insert_url(&url(2, "https://a.org", 1, 5)), UrlMerge::Updated(1));
    assert_eq!(store.insert_url(&url(1, "https://c.org", 1, 5)), UrlMerge::Rejected);
    assert_eq!(store.urls[0].last_seen.secs, 5);
    assert_eq!(store.insert_visit(&visit(1, 99, 3, "f"), None), VisitMerge::Unresolved);
    assert_eq!(store.insert_visit(&visit(1, 99, 3, "f"), Some(1)), VisitMerge::Inserted);
    assert_eq!(store.visits[0].url_id, 1);
    assert_eq!(store.insert_visit(&visit(2, 99, 3, "f"), Some(1)), VisitMerge::Skipped);
    assert_eq!(store.insert_visit(&visit(1, 99, 4, "f"), Some(1)), VisitMerge::Rejected);
}

#[test]
fn enrichment_is_kept_against_empty_metadata() {
    let mut store = HistoryStore::new();
    assert!(store.insert_metadata(&MetadataRecord::empty(1)));
    let enriched = MetadataRecord::new(
        1,
        Some("A summary".to_string()),
        Some("rust".to_string()),
        None,
        Some("dev".to_string()),
        true,
    );
    assert!(!store.insert_metadata(&enriched));
    assert_eq!(store.metadata[0].summary, Some("A summary".to_string()));
    assert!(!store.insert_metadata(&MetadataRecord::empty(1)));
    assert_eq!(store.metadata.len(), 1);
    assert!(store.metadata[0].is_enriched);
    assert_eq!(store.metadata[0].keywords, Some("rust".to_string()));
}

#[test]
fn insert_stats_helpers() {
    let stats = InsertStats {
        urls_inserted: 2,
        urls_updated: 5,
        visits_inserted: 3,
        visits_skipped: 1,
        metadata_inserted: 2,
        errors: vec![],
    };
    assert_eq!(stats.total_inserted(), 7);
    assert!(!stats.has_errors());
    let failed = InsertStats { errors: vec!["x".to_string()], ..InsertStats::default() };
    assert!(failed.has_errors());
    assert_eq!(failed.total_inserted(), 0);
}

#[test]
fn database_error_messages() {
    let cases = [
        (DatabaseError::Connection("c".to_string()), "Database connection error: c"),
        (DatabaseError::Query("q".to_string()), "Query error: q"),
        (DatabaseError::Transaction("t".to_string()), "Transaction error: t"),
        (DatabaseError::Data("d".to_string()), "Data error: d"),
        (DatabaseError::Schema("s".to_string()), "Schema error: s"),
        (DatabaseError::Migration("m".to_string()), "Migration error: m"),
        (DatabaseError::Lock("l".to_string()), "Lock error: l"),
        (DatabaseError::Io("i".to_string()), "I/O error: i"),
        (DatabaseError::Other("o".to_string()), "Database error: o"),
    ];
    for (e, expected) in cases {
        assert_eq!(e.message(), expected);
    }
}

#[test]
fn turned_away_url_can_change_a_second_merge() {
    // "b" is turned away for id 1, then stored under id 2: merging again resolves it
    let data = raw(
        vec![url(1, "https://a.org", 0, 10), url(1, "https://b.org", 0, 50), url(2, "https://b.org", 0, 20)],
        vec![],
    );
    let mut store = HistoryStore::new();
    let first = insert_history_data(&mut store, &data);
    assert_eq!(first.urls_inserted, 2);
    assert_eq!(first.errors.len(), 1);
    assert_eq!(store.urls[1].last_seen.secs, 20);
    let second = insert_history_data(&mut store, &data);
    assert_eq!(second.urls_inserted, 0);
    assert_eq!(second.urls_updated, 3);
    assert_eq!(store.urls[1].last_seen.secs, 50);
}
