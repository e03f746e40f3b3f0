use history_store::extract::{extract_history, Cell, ForeignHistory, ForeignUrlRow, ForeignVisitRow};
use history_store::records::{MetadataRecord, UrlRecord, VisitRecord};
use history_store::search::{search_history, SearchParams};
use history_store::stats::get_stats;
use history_store::store::{insert_history_data, HistoryStore};
use history_store::timeline::{get_timeline_data, TimelineGrouping, TimelineItem, TimelineParams};
use history_store::timestamp::UtcTime;

fn text(s: &str) -> Cell {
    Cell::Text(s.to_string())
}

fn url_row(id: i64, url: &str, title: &str, domain: &str, first: i64, last: i64) -> ForeignUrlRow {
    ForeignUrlRow {
        id: Cell::Integer(id),
        url: text(url),
        title: text(title),
        domain: text(domain),
        first_visit: Cell::Integer(first),
        last_visit: Cell::Integer(last),
    }
}

fn visit_row(id: i64, item: i64, time: i64) -> ForeignVisitRow {
    ForeignVisitRow { id: Cell::Integer(id), history_item: Cell::Integer(item), visit_time: Cell::Integer(time) }
}

/// 2022-01-01T00:00:00Z.
const JAN_1: i64 = 1640995200;
const DAY: i64 = 86400;

fn store() -> HistoryStore {
    let history = ForeignHistory {
        tables: vec!["history_items".to_string(), "history_visits".to_string()],
        url_rows: vec![
            url_row(1, "https://example.com", "Example Site", "example.com", 662688000, 662774400),
            url_row(2, "https://test.org/page1", "Test Page 1", "test.org", 662860800, 662860800),
            url_row(3, "https://test.org/page2", "Test Page 2", "test.org", 662947200, 663033600),
        ],
        visit_rows: vec![
            visit_row(6, 3, 663033600),
            visit_row(5, 3, 662947200),
            visit_row(4, 2, 662860800),
            visit_row(3, 1, 662774400),
            visit_row(2, 1, 662731200),
            visit_row(1, 1, 662688000),
        ],
    };
    let data = extract_history("/a/history.db".to_string(), None, &history).unwrap();
    let mut store = HistoryStore::new();
    insert_history_data(&mut store, &data);
    store
}

fn params() -> SearchParams {
    SearchParams { query: None, domain: None, start_date: None, end_date: None, limit: None, offset: None }
}

fn count_of(item: &TimelineItem) -> usize {
    match item {
        TimelineItem::Hourly { count, .. } => *count,
        TimelineItem::Daily { count, .. } => *count,
        TimelineItem::Domain { count, .. } => *count,
    }
}

#[test]
fn search_by_domain_returns_only_that_domain_latest_first() {
    let s = store();
    let r = search_history(&s, &SearchParams { domain: Some("test.org".to_string()), ..params() });
    assert_eq!(r.total_count, 2);
    assert_eq!(r.urls.len(), 2);
    assert_eq!(r.urls[0].url.url, "https://test.org/page2");
    assert_eq!(r.urls[0].visit_count, 2);
    assert_eq!(r.urls[0].last_visit, Some(UtcTime { secs: JAN_1 + 4 * DAY }));
    assert_eq!(r.urls[1].url.url, "https://test.org/page1");
    assert_eq!(r.urls[1].last_visit, Some(UtcTime { secs: JAN_1 + 2 * DAY }));
    for row in &r.urls {
        assert_eq!(row.url.domain, "test.org");
        assert!(row.metadata.is_some());
    }
}

#[test]
fn search_query_ignores_ascii_case() {
    let s = store();
    let r = search_history(&s, &SearchParams { query: Some("EXAMPLE site".to_string()), ..params() });
    assert_eq!(r.total_count, 1);
    assert_eq!(r.urls[0].url.url, "https://example.com");
    assert_eq!(r.urls[0].visit_count, 3);
    let r = search_history(&s, &SearchParams { query: Some("PAGE".to_string()), ..params() });
    assert_eq!(r.total_count, 2);
    let r = search_history(&s, &SearchParams { query: Some("nowhere".to_string()), ..params() });
    assert_eq!(r.total_count, 0);
    assert!(r.urls.is_empty());
}

#[test]
fn search_query_reaches_metadata() {
    let mut s = store();
    let id = s.urls[1].id;
    s.insert_metadata(&MetadataRecord::new(id, None, None, Some("Gardening, roses".to_string()), None, true));
    let r = search_history(&s, &SearchParams { query: Some("roses".to_string()), ..params() });
    assert_eq!(r.total_count, 1);
    assert_eq!(r.urls[0].url.id, id);
    assert_eq!(r.urls[0].metadata.as_ref().unwrap().tags, Some("Gardening, roses".to_string()));
}

#[test]
fn search_date_window_counts_only_visits_inside() {
    let s = store();
    let r = search_history(
        &s,
        &SearchParams {
            start_date: Some(UtcTime { secs: JAN_1 + 12 * 3600 }),
            end_date: Some(UtcTime { secs: JAN_1 + 3 * DAY }),
            ..params()
        },
    );
    // example.com: Jan 1 12:00 and Jan 2; page1: Jan 3; page2: Jan 4
    assert_eq!(r.total_count, 3);
    assert_eq!(r.urls[0].url.url, "https://test.org/page2");
    assert_eq!(r.urls[0].visit_count, 1);
    assert_eq!(r.urls[2].url.url, "https://example.com");
    assert_eq!(r.urls[2].visit_count, 2);
    assert_eq!(r.urls[2].last_visit, Some(UtcTime { secs: JAN_1 + DAY }));
}

#[test]
fn total_count_ignores_pagination() {
    let s = store();
    let all = search_history(&s, &params());
    assert_eq!(all.total_count, 3);
    assert_eq!(all.urls.len(), 3);
    let page = search_history(&s, &SearchParams { limit: Some(1), offset: Some(1), ..params() });
    assert_eq!(page.total_count, 3);
    assert_eq!(page.urls.len(), 1);
    assert_eq!(page.urls[0].url.url, all.urls[1].url.url);
    let past_end = search_history(&s, &SearchParams { offset: Some(7), ..params() });
    assert_eq!(past_end.total_count, 3);
    assert!(past_end.urls.is_empty());
    let limited = search_history(&s, &SearchParams { limit: Some(2), ..params() });
    assert_eq!(limited.urls.len(), 2);
    assert!(limited.total_count >= limited.urls.len());
}

#[test]
fn url_without_visits_ranks_last_and_drops_out_of_date_search() {
    let mut s = store();
    let mut lone = s.urls[0].duplicate();
    lone.id = 77;
    lone.url = "https://lonely.net".to_string();
    s.insert_url(&lone);
    let r = search_history(&s, &params());
    assert_eq!(r.total_count, 4);
    assert_eq!(r.urls[3].url.url, "https://lonely.net");
    assert_eq!(r.urls[3].visit_count, 0);
    assert_eq!(r.urls[3].last_visit, None);
    let r = search_history(&s, &SearchParams { start_date: Some(UtcTime { secs: 0 }), ..params() });
    assert_eq!(r.total_count, 3);
}

#[test]
fn hour_timeline_over_a_range_counts_its_visits() {
    let s = store();
    let p = TimelineParams {
        start_date: Some(UtcTime { secs: JAN_1 }),
        end_date: Some(UtcTime { secs: JAN_1 + 2 * DAY }),
        domain: None,
        group_by: TimelineGrouping::Hour,
    };
    let items = get_timeline_data(&s, &p);
    let total: usize = items.iter().map(count_of).sum();
    assert_eq!(total, 4);
    assert_eq!(items.len(), 2);
    match &items[0] {
        TimelineItem::Hourly { hour, count, timestamp, urls } => {
            assert_eq!(*hour, 0);
            assert_eq!(*count, 3);
            assert_eq!(timestamp.secs, JAN_1);
            let urls = urls.as_ref().unwrap();
            assert_eq!(urls.len(), 2);
            assert_eq!(urls[0].url.url, "https://example.com");
            assert_eq!(urls[0].visit_count, 2);
            assert_eq!(urls[0].last_visit, Some(UtcTime { secs: JAN_1 + DAY }));
        },
        _ => panic!("expected an hour bucket"),
    }
    match &items[1] {
        TimelineItem::Hourly { hour, count, .. } => {
            assert_eq!(*hour, 12);
            assert_eq!(*count, 1);
        },
        _ => panic!("expected an hour bucket"),
    }
}

#[test]
fn day_timeline_accounts_for_every_visit() {
    let s = store();
    let p = TimelineParams { start_date: None, end_date: None, domain: None, group_by: TimelineGrouping::Day };
    let items = get_timeline_data(&s, &p);
    assert_eq!(items.len(), 5);
    let total: usize = items.iter().map(count_of).sum();
    assert_eq!(total, 6);
    match &items[0] {
        TimelineItem::Daily { date, count, urls } => {
            assert_eq!(date.secs, JAN_1 + 4 * DAY);
            assert_eq!(*count, 1);
            assert_eq!(urls.as_ref().unwrap()[0].url.url, "https://test.org/page2");
        },
        _ => panic!("expected a day bucket"),
    }
    match &items[4] {
        TimelineItem::Daily { date, count, .. } => {
            assert_eq!(date.secs, JAN_1);
            assert_eq!(*count, 2);
        },
        _ => panic!("expected a day bucket"),
    }
}

#[test]
fn domain_timeline_with_domain_filter() {
    let s = store();
    let p = TimelineParams {
        start_date: None,
        end_date: None,
        domain: Some("test.org".to_string()),
        group_by: TimelineGrouping::Domain,
    };
    let items = get_timeline_data(&s, &p);
    assert_eq!(items.len(), 1);
    match &items[0] {
        TimelineItem::Domain { domain, count, urls } => {
            assert_eq!(domain, "test.org");
            assert_eq!(*count, 3);
            let urls = urls.as_ref().unwrap();
            assert_eq!(urls.len(), 2);
            assert_eq!(urls[0].url.url, "https://test.org/page2");
            assert_eq!(urls[0].visit_count, 2);
        },
        _ => panic!("expected a domain bucket"),
    }
    let all = get_timeline_data(&s, &TimelineParams { domain: None, ..p });
    assert_eq!(all.len(), 2);
    let total: usize = all.iter().map(count_of).sum();
    assert_eq!(total, 6);
}

#[test]
fn empty_store_has_empty_timeline_and_search() {
    let s = HistoryStore::new();
    let p = TimelineParams { start_date: None, end_date: None, domain: None, group_by: TimelineGrouping::Day };
    assert!(get_timeline_data(&s, &p).is_empty());
    let r = search_history(&s, &params());
    assert_eq!(r.total_count, 0);
}

#[test]
fn store_figures() {
    let s = store();
    let stats = get_stats(&s);
    assert_eq!(stats.url_count, 3);
    assert_eq!(stats.visit_count, 6);
    assert_eq!(stats.domain_count, 2);
    assert_eq!(stats.enriched_count, 0);
    assert_eq!(stats.first_visit, Some(UtcTime { secs: JAN_1 }));
    assert_eq!(stats.last_visit, Some(UtcTime { secs: JAN_1 + 4 * DAY }));
    assert_eq!(stats.top_domains.len(), 2);
    assert_eq!(stats.top_domains[0].1, 3);
    assert_eq!(stats.top_domains[1].1, 3);
}

fn add_url(s: &mut HistoryStore, id: u128, domain: &str, visits: &[i64]) {
    let u = UrlRecord {
        id,
        url: format!("https://{}/{}", domain, id),
        title: None,
        domain: domain.to_string(),
        first_seen: UtcTime { secs: 0 },
        last_seen: UtcTime { secs: 0 },
    };
    s.insert_url(&u);
    for (k, at) in visits.iter().enumerate() {
        let v = VisitRecord {
            id: id * 1000 + k as u128,
            url_id: id,
            visited_at: UtcTime { secs: *at },
            visit_count: 1,
            source_file: "f.db".to_string(),
            device_name: None,
            duration_sec: None,
        };
        s.insert_visit(&v, Some(id));
    }
}

#[test]
fn domain_timeline_keeps_the_hundred_busiest_domains() {
    let mut s = HistoryStore::new();
    for i in 0..101u128 {
        let visits: Vec<i64> = if i == 100 { vec![10, 20] } else { vec![10] };
        add_url(&mut s, i + 1, &format!("d{}.org", i), &visits);
    }
    let p = TimelineParams { start_date: None, end_date: None, domain: None, group_by: TimelineGrouping::Domain };
    let items = get_timeline_data(&s, &p);
    assert_eq!(items.len(), 100);
    match &items[0] {
        TimelineItem::Domain { domain, count, .. } => {
            assert_eq!(domain, "d100.org");
            assert_eq!(*count, 2);
        },
        _ => panic!("expected a domain bucket"),
    }
    match &items[99] {
        TimelineItem::Domain { domain, .. } => assert_eq!(domain, "d98.org"),
        _ => panic!("expected a domain bucket"),
    }
}

#[test]
fn hour_buckets_with_equal_counts_go_by_hour() {
    let mut s = HistoryStore::new();
    add_url(&mut s, 1, "a.org", &[JAN_1 + 15 * 3600, JAN_1 + 3 * 3600, JAN_1 + DAY + 9 * 3600, JAN_1 + 9 * 3600]);
    let p = TimelineParams { start_date: None, end_date: None, domain: None, group_by: TimelineGrouping::Hour };
    let items = get_timeline_data(&s, &p);
    let hours: Vec<u8> = items
        .iter()
        .map(|item| match item {
            TimelineItem::Hourly { hour, .. } => *hour,
            _ => 99,
        })
        .collect();
    assert_eq!(hours, vec![9, 3, 15]);
    match &items[0] {
        TimelineItem::Hourly { count, timestamp, .. } => {
            assert_eq!(*count, 2);
            assert_eq!(timestamp.secs, JAN_1 + 9 * 3600);
        },
        _ => panic!("expected an hour bucket"),
    }
}

#[test]
fn samples_are_the_five_most_visited_urls() {
    let mut s = HistoryStore::new();
    for i in 1..=7u128 {
        let visits: Vec<i64> = (0..i as i64).map(|k| JAN_1 + k * 60).collect();
        add_url(&mut s, i, "a.org", &visits);
    }
    let p = TimelineParams { start_date: None, end_date: None, domain: None, group_by: TimelineGrouping::Day };
    let items = get_timeline_data(&s, &p);
    assert_eq!(items.len(), 1);
    match &items[0] {
        TimelineItem::Daily { count, urls, .. } => {
            assert_eq!(*count, 28);
            let urls = urls.as_ref().unwrap();
            let counts: Vec<usize> = urls.iter().map(|u| u.visit_count).collect();
            assert_eq!(counts, vec![7, 6, 5, 4, 3]);
            assert_eq!(urls[0].url.id, 7);
            assert_eq!(urls[0].last_visit, Some(UtcTime { secs: JAN_1 + 6 * 60 }));
        },
        _ => panic!("expected a day bucket"),
    }
}
