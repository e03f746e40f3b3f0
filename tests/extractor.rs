use history_store::error::{ExtractionError, FailedFile};
use history_store::extract::{
    domain_from_parse, extract_domain, extract_history, parse_history_db, verify_safari_schema, Cell,
    ForeignHistory, ForeignUrlRow, ForeignVisitRow, SourceFile,
};
use history_store::timestamp::{mac_to_utc, utc_to_mac, UtcTime, MAC_TO_UNIX_EPOCH_OFFSET, MAX_UNIX_SECONDS};

fn text(s: &str) -> Cell {
    Cell::Text(s.to_string())
}

fn url_row(id: i64, url: &str, title: &str, domain: &str, first: i64, last: i64) -> ForeignUrlRow {
    ForeignUrlRow {
        id: Cell::Integer(id),
        url: text(url),
        title: text(title),
        domain: text(domain),
        first_visit: Cell::Integer(first),
        last_visit: Cell::Integer(last),
    }
}

fn visit_row(id: i64, item: i64, time: i64) -> ForeignVisitRow {
    ForeignVisitRow { id: Cell::Integer(id), history_item: Cell::Integer(item), visit_time: Cell::Integer(time) }
}

fn safari_tables() -> Vec<String> {
    vec!["history_items".to_string(), "history_visits".to_string()]
}

/// The rows of the sample database: three URLs and six visits, latest visit first.
fn mock_history() -> ForeignHistory {
    ForeignHistory {
        tables: safari_tables(),
        url_rows: vec![
            url_row(1, "https://example.com", "Example Site", "example.com", 662688000, 662774400),
            url_row(2, "https://test.org/page1", "Test Page 1", "test.org", 662860800, 662860800),
            url_row(3, "https://test.org/page2", "Test Page 2", "test.org", 662947200, 663033600),
        ],
        visit_rows: vec![
            visit_row(6, 3, 663033600),
            visit_row(5, 3, 662947200),
            visit_row(4, 2, 662860800),
            visit_row(3, 1, 662774400),
            visit_row(2, 1, 662731200),
            visit_row(1, 1, 662688000),
        ],
    }
}

#[test]
fn test_mac_to_utc_conversion() {
    let mac_timestamp = 1000000000;
    let utc_time = mac_to_utc(mac_timestamp).expect("Timestamp conversion failed");
    let expected_unix_timestamp = mac_timestamp + MAC_TO_UNIX_EPOCH_OFFSET;
    assert_eq!(utc_time.timestamp(), expected_unix_timestamp);
}

#[test]
fn native_epoch_value_normalizes_to_unix_seconds() {
    let t = mac_to_utc(1000000000).unwrap();
    assert_eq!(t.timestamp(), 1978307200);
}

#[test]
fn native_round_trip_recovers_value() {
    for native in [0i64, 1, -1, 662688000, 1000000000, -978307200, MAX_UNIX_SECONDS - MAC_TO_UNIX_EPOCH_OFFSET] {
        let t = mac_to_utc(native).unwrap();
        assert_eq!(utc_to_mac(t), native);
    }
}

#[test]
fn timestamps_outside_the_calendar_are_rejected() {
    assert_eq!(mac_to_utc(i64::MAX).unwrap_err().message(), "Parse error: Invalid timestamp: 9223372036854775807");
    assert_eq!(mac_to_utc(i64::MIN).unwrap_err().message(), "Parse error: Invalid timestamp: -9223372036854775808");
    assert!(mac_to_utc(MAX_UNIX_SECONDS - MAC_TO_UNIX_EPOCH_OFFSET + 1).is_err());
    assert_eq!(UtcTime::from_timestamp(MAX_UNIX_SECONDS), Some(UtcTime { secs: MAX_UNIX_SECONDS }));
    assert_eq!(UtcTime::from_timestamp(MAX_UNIX_SECONDS + 1), None);
    assert_eq!(UtcTime::from_timestamp(-8334601228800), Some(UtcTime { secs: -8334601228800 }));
    assert_eq!(UtcTime::from_timestamp(-8334601228801), None);
}

#[test]
fn hour_and_day_of_instants() {
    let t = UtcTime { secs: 1640995200 + 12 * 3600 + 59 };
    assert_eq!(t.hour_of_day(), 12);
    assert_eq!(t.day_number(), 18993);
    let before_epoch = UtcTime { secs: -1 };
    assert_eq!(before_epoch.hour_of_day(), 23);
    assert_eq!(before_epoch.day_number(), -1);
}

#[test]
fn test_extract_domain() {
    let test_cases = [
        ("https://www.example.com", "www.example.com"),
        ("http://example.org", "example.org"),
        ("https://sub.domain.net/path?query=value", "sub.domain.net"),
        ("https://192.168.1.1:8080", "192.168.1.1"),
    ];
    for (url, expected) in test_cases {
        let result = extract_domain(url).expect("Domain extraction failed");
        assert_eq!(result, expected);
    }
    let result = extract_domain("not-a-valid-url");
    assert!(result.is_err());
}

#[test]
fn domain_errors_name_the_text() {
    let e = extract_domain("not-a-valid-url").unwrap_err();
    assert_eq!(e.message(), "Parse error: Invalid URL: not-a-valid-url");
    let e = domain_from_parse("data:text/plain,hi", Some(None)).unwrap_err();
    assert_eq!(e.message(), "Parse error: URL has no host: data:text/plain,hi");
    assert_eq!(domain_from_parse("x", Some(Some("h.org".to_string()))).unwrap(), "h.org");
    assert!(extract_domain("data:text/plain,hi").is_err());
}

#[test]
fn test_verify_safari_schema() {
    let result = verify_safari_schema(&safari_tables());
    assert!(result.is_ok());

    let result = verify_safari_schema(&Vec::new());
    assert!(result.is_err());
    match result {
        Err(ExtractionError::UnsupportedSchema(_)) => (),
        Err(e) => panic!("Unexpected error type: {:?}", e),
        Ok(_) => panic!("Expected error but got Ok"),
    }
}

#[test]
fn schema_error_names_the_missing_table() {
    let e = verify_safari_schema(&vec!["history_items".to_string()]).unwrap_err();
    assert_eq!(e.message(), "Unsupported schema: Not a Safari history database: missing 'history_visits' table");
    let e = verify_safari_schema(&vec!["history_visits".to_string()]).unwrap_err();
    assert_eq!(e.message(), "Unsupported schema: Not a Safari history database: missing 'history_items' table");
}

#[test]
fn test_extract_history() {
    let device_name = Some("Test Device".to_string());
    let result = extract_history("history.db".to_string(), device_name.clone(), &mock_history());

    assert!(result.is_ok());
    let history_data = result.unwrap();

    assert_eq!(history_data.urls.len(), 3);
    assert_eq!(history_data.visits.len(), 6);
    assert_eq!(history_data.source.device_name, device_name);

    let example_url = history_data
        .urls
        .iter()
        .find(|u| u.url == "https://example.com")
        .expect("Failed to find example.com URL");

    assert_eq!(example_url.title, Some("Example Site".to_string()));
    assert_eq!(example_url.domain, "example.com");

    for visit in &history_data.visits {
        let url = history_data
            .urls
            .iter()
            .find(|u| u.id == visit.url_id)
            .expect("Visit references unknown URL ID");
        assert!(!url.url.is_empty());
    }
}

#[test]
fn extraction_of_three_urls_and_six_visits() {
    let data = extract_history("/tmp/a.db".to_string(), None, &mock_history()).unwrap();
    assert_eq!(data.urls.len(), 3);
    assert_eq!(data.visits.len(), 6);
    assert!(data.warnings.is_empty());
    assert_eq!(data.total_items(), 9);
    assert_eq!(data.urls[0].first_seen.timestamp(), 1640995200);
    assert_eq!(data.urls[0].last_seen.timestamp(), 1641081600);
    let example = data.urls[0].id;
    let page2 = data.urls[2].id;
    assert_eq!(data.visits[0].url_id, page2);
    assert_eq!(data.visits[0].visited_at.timestamp(), 1641340800);
    assert_eq!(data.visits[5].url_id, example);
    for v in &data.visits {
        assert_eq!(v.visit_count, 1);
        assert_eq!(v.source_file, "/tmp/a.db");
        assert_eq!(v.device_name, None);
        assert_eq!(v.duration_sec, None);
    }
    assert_ne!(data.urls[0].id, data.urls[1].id);
    assert_ne!(data.urls[1].id, data.urls[2].id);
    assert_ne!(data.visits[0].id, data.visits[1].id);
    // extracted now, not at some fixed instant
    assert!(data.source.extraction_time.timestamp() > 1700000000);
}

#[test]
fn unresolved_visit_is_dropped_with_a_warning() {
    let mut history = mock_history();
    history.visit_rows.insert(2, visit_row(7, 99, 662700000));
    let data = extract_history("h.db".to_string(), None, &history).unwrap();
    assert_eq!(data.urls.len(), 3);
    assert_eq!(data.visits.len(), 6);
    assert_eq!(data.warnings, vec!["Failed to process visit: Parse error: Visit references unknown URL ID: 99".to_string()]);
}

#[test]
fn failed_url_row_drops_its_visits_too() {
    let mut history = mock_history();
    history.url_rows[0].url = Cell::Null;
    let data = extract_history("h.db".to_string(), None, &history).unwrap();
    assert_eq!(data.urls.len(), 2);
    assert_eq!(data.visits.len(), 3);
    assert_eq!(data.warnings.len(), 4);
    assert_eq!(data.warnings[0], "Failed to process URL: Invalid format: unexpected value in column url");
    assert_eq!(data.warnings[1], "Failed to process visit: Parse error: Visit references unknown URL ID: 1");
}

#[test]
fn row_field_errors_become_warnings() {
    let mut history = mock_history();
    history.url_rows[1].first_visit = Cell::Integer(i64::MAX);
    history.url_rows[2].title = Cell::Integer(5);
    history.visit_rows[0].visit_time = Cell::Text("soon".to_string());
    history.visit_rows[1].id = Cell::Real;
    history.visit_rows[2].history_item = Cell::Blob;
    let data = extract_history("h.db".to_string(), None, &history).unwrap();
    assert_eq!(data.urls.len(), 1);
    assert_eq!(
        data.warnings,
        vec![
            "Failed to process URL: Parse error: Invalid timestamp: 9223372036854775807".to_string(),
            "Failed to process URL: Invalid format: unexpected value in column title".to_string(),
            "Failed to process visit: Invalid format: unexpected value in column visit_time".to_string(),
            "Failed to process visit: Invalid format: unexpected value in column id".to_string(),
            "Failed to process visit: Invalid format: unexpected value in column history_item".to_string(),
        ]
    );
    assert_eq!(data.visits.len(), 3);
}

#[test]
fn null_title_is_no_title() {
    let mut history = mock_history();
    history.url_rows[0].title = Cell::Null;
    let data = extract_history("h.db".to_string(), None, &history).unwrap();
    assert_eq!(data.urls[0].title, None);
    assert!(data.warnings.is_empty());
}

#[test]
fn schema_mismatch_gives_no_records() {
    let history = ForeignHistory { tables: vec!["history_items".to_string()], url_rows: vec![], visit_rows: vec![] };
    match extract_history("bad.db".to_string(), None, &history) {
        Err(ExtractionError::UnsupportedSchema(m)) => {
            assert_eq!(m, "Not a Safari history database: missing 'history_visits' table")
        },
        other => panic!("unexpected {:?}", other.map(|d| d.total_items())),
    }
}

#[test]
fn test_parse_history_db_multiple_files() {
    let files = vec![
        SourceFile { path: "db1/history.db".to_string(), contents: Ok(mock_history()) },
        SourceFile {
            path: "not-a-db.txt".to_string(),
            contents: Err(ExtractionError::Database("file is not a database".to_string())),
        },
        SourceFile { path: "db2/history.db".to_string(), contents: Ok(mock_history()) },
    ];
    let device_names = vec!["Device 1".to_string(), "Invalid Device".to_string(), "Device 2".to_string()];

    let (successful, failed) = parse_history_db(&files, Some(&device_names));

    assert_eq!(successful.len(), 2);
    assert_eq!(failed.len(), 1);
    assert_eq!(successful[0].source.device_name, Some("Device 1".to_string()));
    assert_eq!(successful[1].source.device_name, Some("Device 2".to_string()));
    assert_eq!(failed[0].path, files[1].path);
}

#[test]
fn schema_failure_is_isolated_among_files() {
    let files = vec![
        SourceFile { path: "a.db".to_string(), contents: Ok(mock_history()) },
        SourceFile {
            path: "empty.db".to_string(),
            contents: Ok(ForeignHistory { tables: vec![], url_rows: vec![], visit_rows: vec![] }),
        },
        SourceFile { path: "b.db".to_string(), contents: Ok(mock_history()) },
    ];
    let (successful, failed) = parse_history_db(&files, None);
    assert_eq!(successful.len(), 2);
    assert_eq!(successful[0].source.file_path, "a.db");
    assert_eq!(successful[1].source.file_path, "b.db");
    assert_eq!(successful[0].source.device_name, None);
    assert_eq!(failed.len(), 1);
    assert_eq!(
        failed[0].description(),
        "Failed to process 'empty.db': Unsupported schema: Not a Safari history database: missing 'history_items' table"
    );
}

#[test]
fn device_names_shorter_than_files() {
    let files = vec![
        SourceFile { path: "a.db".to_string(), contents: Ok(mock_history()) },
        SourceFile { path: "b.db".to_string(), contents: Ok(mock_history()) },
    ];
    let names = vec!["Only".to_string()];
    let (successful, failed) = parse_history_db(&files, Some(&names));
    assert!(failed.is_empty());
    assert_eq!(successful[0].source.device_name, Some("Only".to_string()));
    assert_eq!(successful[1].source.device_name, None);
}

#[test]
fn extraction_error_messages() {
    let cases = [
        (ExtractionError::Io("gone".to_string()), "IO error: gone"),
        (ExtractionError::InvalidFormat("x".to_string()), "Invalid format: x"),
        (ExtractionError::Database("locked".to_string()), "Database error: locked"),
        (ExtractionError::Parse("p".to_string()), "Parse error: p"),
        (ExtractionError::UnsupportedSchema("s".to_string()), "Unsupported schema: s"),
        (ExtractionError::Other("o".to_string()), "Error: o"),
    ];
    for (e, expected) in cases {
        assert_eq!(e.message(), expected);
        assert_eq!(e.duplicate(), e);
    }
    let f = FailedFile::new("x.db".to_string(), ExtractionError::Io("denied".to_string()));
    assert_eq!(f.description(), "Failed to process 'x.db': IO error: denied");
}

#[test]
fn visits_come_out_latest_first_whatever_the_row_order() {
    let mut history = mock_history();
    history.visit_rows.reverse();
    history.visit_rows.push(visit_row(7, 2, 662731200));
    let data = extract_history("h.db".to_string(), None, &history).unwrap();
    let times: Vec<i64> = data.visits.iter().map(|v| v.visited_at.timestamp()).collect();
    assert_eq!(
        times,
        vec![1641340800, 1641254400, 1641168000, 1641081600, 1641038400, 1641038400, 1640995200]
    );
    // equal instants keep their row order: URL 1's visit came first
    assert_eq!(data.visits[4].url_id, data.urls[0].id);
    assert_eq!(data.visits[5].url_id, data.urls[1].id);
    for v in &data.visits {
        assert!(data.urls.iter().any(|u| u.id == v.url_id));
    }
}
