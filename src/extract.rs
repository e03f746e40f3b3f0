//! Extraction of one foreign history database into a batch of canonical records.
//!
//! The rows arrive as plain cells, read from the foreign tables; every row-level failure
//! becomes a warning of the batch, and only a missing table fails the whole file.

use vstd::prelude::*;
use std::collections::HashMap;
use crate::error::{ExtractionError, FailedFile, extraction_error_text};
use crate::records::{UrlRecord, VisitRecord, copy_opt_text};
use crate::text::{decimal_text, int_text};
use crate::ranking::{as_ints, is_rank_order, rank_order};
use crate::timestamp::{UtcTime, bad_timestamp_text, mac_to_utc, mac_to_utc_spec};

verus! {

broadcast use vstd::std_specs::hash::group_hash_axioms;

/// One value of a foreign row, by its storage class.
#[derive(Debug, Clone)]
pub enum Cell {
    Null,
    Integer(i64),
    /// A floating-point value; no field of the rows accepts one, so its value is not kept.
    Real,
    /// Text, when it is valid UTF-8.
    Text(String),
    /// Bytes, or text that is not valid UTF-8; no field accepts them.
    Blob,
}

/// A row of the foreign URL table.
#[derive(Debug, Clone)]
pub struct ForeignUrlRow {
    pub id: Cell,
    pub url: Cell,
    pub title: Cell,
    pub domain: Cell,
    /// Native-clock instant of the first visit.
    pub first_visit: Cell,
    /// Native-clock instant of the last visit.
    pub last_visit: Cell,
}

/// A row of the foreign visit table.
#[derive(Debug, Clone)]
pub struct ForeignVisitRow {
    pub id: Cell,
    /// Foreign id of the visited URL row.
    pub history_item: Cell,
    /// Native-clock instant of the visit.
    pub visit_time: Cell,
}

/// What was read from one foreign database: its table names and the rows of its two tables.
#[derive(Debug, Clone)]
pub struct ForeignHistory {
    pub tables: Vec<String>,
    pub url_rows: Vec<ForeignUrlRow>,
    pub visit_rows: Vec<ForeignVisitRow>,
}

// ---------------------------------------------------------------- reading cells

pub open spec fn bad_column_text(column: Seq<char>) -> Seq<char> {
    "Invalid format: "@ + ("unexpected value in column "@ + column)
}

pub open spec fn unknown_url_text(foreign_id: i64) -> Seq<char> {
    "Parse error: "@ + ("Visit references unknown URL ID: "@ + decimal_text(foreign_id as int))
}

pub open spec fn read_int(c: Cell, column: Seq<char>) -> Result<i64, Seq<char>> {
    match c {
        Cell::Integer(n) => Ok(n),
        _ => Err(bad_column_text(column)),
    }
}

pub open spec fn read_text(c: Cell, column: Seq<char>) -> Result<String, Seq<char>> {
    match c {
        Cell::Text(s) => Ok(s),
        _ => Err(bad_column_text(column)),
    }
}

pub open spec fn read_opt_text(c: Cell, column: Seq<char>) -> Result<Option<String>, Seq<char>> {
    match c {
        Cell::Null => Ok(None),
        Cell::Text(s) => Ok(Some(s)),
        _ => Err(bad_column_text(column)),
    }
}

pub open spec fn read_time(native: i64) -> Result<UtcTime, Seq<char>> {
    match mac_to_utc_spec(native) {
        Some(t) => Ok(t),
        None => Err(bad_timestamp_text(native)),
    }
}

fn column_error(column: &str) -> (e: ExtractionError)
    ensures
        extraction_error_text(e) == bad_column_text(column@),
{
    ExtractionError::InvalidFormat(String::from_str("unexpected value in column ").concat(column))
}

fn int_cell(c: &Cell, column: &str) -> (r: Result<i64, ExtractionError>)
    ensures
        match read_int(*c, column@) {
            Ok(n) => r == Ok::<i64, ExtractionError>(n),
            Err(t) => r is Err && extraction_error_text(r->Err_0) == t,
        },
{
    match c {
        Cell::Integer(n) => Ok(*n),
        _ => Err(column_error(column)),
    }
}

fn text_cell(c: &Cell, column: &str) -> (r: Result<String, ExtractionError>)
    ensures
        match read_text(*c, column@) {
            Ok(s) => r == Ok::<String, ExtractionError>(s),
            Err(t) => r is Err && extraction_error_text(r->Err_0) == t,
        },
{
    match c {
        Cell::Text(s) => Ok(s.clone()),
        _ => Err(column_error(column)),
    }
}

fn opt_text_cell(c: &Cell, column: &str) -> (r: Result<Option<String>, ExtractionError>)
    ensures
        match read_opt_text(*c, column@) {
            Ok(s) => r == Ok::<Option<String>, ExtractionError>(s),
            Err(t) => r is Err && extraction_error_text(r->Err_0) == t,
        },
{
    match c {
        Cell::Null => Ok(None),
        Cell::Text(s) => Ok(Some(s.clone())),
        _ => Err(column_error(column)),
    }
}

// ---------------------------------------------------------------- URL rows

/// The fields of a URL row that was read without error.
#[derive(Debug, Clone)]
pub struct UrlRowData {
    pub foreign_id: i64,
    pub url: String,
    pub title: Option<String>,
    pub domain: String,
    pub first_seen: UtcTime,
    pub last_seen: UtcTime,
}

/// A URL row read field by field; the first failure, as the text of its error.
pub open spec fn parse_url_row(r: ForeignUrlRow) -> Result<UrlRowData, Seq<char>> {
    let id = read_int(r.id, "id"@);
    let url = read_text(r.url, "url"@);
    let title = read_opt_text(r.title, "title"@);
    let domain = read_text(r.domain, "domain"@);
    let first = read_int(r.first_visit, "first_visit"@);
    let last = read_int(r.last_visit, "last_visit"@);
    if id is Err {
        Err(id->Err_0)
    } else if url is Err {
        Err(url->Err_0)
    } else if title is Err {
        Err(title->Err_0)
    } else if domain is Err {
        Err(domain->Err_0)
    } else if first is Err {
        Err(first->Err_0)
    } else if last is Err {
        Err(last->Err_0)
    } else if read_time(first->Ok_0) is Err {
        Err(read_time(first->Ok_0)->Err_0)
    } else if read_time(last->Ok_0) is Err {
        Err(read_time(last->Ok_0)->Err_0)
    } else {
        Ok(
            UrlRowData {
                foreign_id: id->Ok_0,
                url: url->Ok_0,
                title: title->Ok_0,
                domain: domain->Ok_0,
                first_seen: read_time(first->Ok_0)->Ok_0,
                last_seen: read_time(last->Ok_0)->Ok_0,
            },
        )
    }
}

/// A canonical URL carries the fields of a row (its id is minted apart).
pub open spec fn holds_url_data(u: UrlRecord, d: UrlRowData) -> bool {
    &&& u.url == d.url
    &&& u.title == d.title
    &&& u.domain == d.domain
    &&& u.first_seen == d.first_seen
    &&& u.last_seen == d.last_seen
}

/// The rows that were read without error, in order.
pub open spec fn accepted_url_rows(rows: Seq<ForeignUrlRow>) -> Seq<UrlRowData>
    decreases rows.len(),
{
    if rows.len() == 0 {
        seq![]
    } else {
        let prev = accepted_url_rows(rows.drop_last());
        match parse_url_row(rows.last()) {
            Ok(d) => prev.push(d),
            Err(_) => prev,
        }
    }
}

/// One warning for each URL row that failed, in order.
pub open spec fn url_row_warnings(rows: Seq<ForeignUrlRow>) -> Seq<Seq<char>>
    decreases rows.len(),
{
    if rows.len() == 0 {
        seq![]
    } else {
        let prev = url_row_warnings(rows.drop_last());
        match parse_url_row(rows.last()) {
            Ok(_) => prev,
            Err(t) => prev.push("Failed to process URL: "@ + t),
        }
    }
}

/// Foreign id to canonical id, after the first `n` accepted rows got the ids `ids`
/// (a later row with the same foreign id wins).
pub open spec fn foreign_id_map(data: Seq<UrlRowData>, ids: Seq<u128>, n: nat) -> Map<i64, u128>
    decreases n,
{
    if n == 0 {
        Map::empty()
    } else {
        foreign_id_map(data, ids, (n - 1) as nat).insert(data[n - 1].foreign_id, ids[n - 1])
    }
}

/// Reads one URL row and mints its canonical record.
fn process_url_row(row: &ForeignUrlRow) -> (r: Result<(i64, UrlRecord), ExtractionError>)
    ensures
        match parse_url_row(*row) {
            Ok(d) => r is Ok && r->Ok_0.0 == d.foreign_id && holds_url_data(r->Ok_0.1, d),
            Err(t) => r is Err && extraction_error_text(r->Err_0) == t,
        },
{
    let id = int_cell(&row.id, "id");
    let url = text_cell(&row.url, "url");
    let title = opt_text_cell(&row.title, "title");
    let domain = text_cell(&row.domain, "domain");
    let first = int_cell(&row.first_visit, "first_visit");
    let last = int_cell(&row.last_visit, "last_visit");
    let id = match id {
        Ok(v) => v,
        Err(e) => return Err(e),
    };
    let url = match url {
        Ok(v) => v,
        Err(e) => return Err(e),
    };
    let title = match title {
        Ok(v) => v,
        Err(e) => return Err(e),
    };
    let domain = match domain {
        Ok(v) => v,
        Err(e) => return Err(e),
    };
    let first = match first {
        Ok(v) => v,
        Err(e) => return Err(e),
    };
    let last = match last {
        Ok(v) => v,
        Err(e) => return Err(e),
    };
    let first_seen = match mac_to_utc(first) {
        Ok(v) => v,
        Err(e) => return Err(e),
    };
    let last_seen = match mac_to_utc(last) {
        Ok(v) => v,
        Err(e) => return Err(e),
    };
    Ok((id, UrlRecord::new(url, title, domain, first_seen, last_seen)))
}

// ---------------------------------------------------------------- visit rows

/// What a visit row that was read and resolved contributes.
#[derive(Debug, Clone, Copy)]
pub struct VisitRowData {
    pub url_id: u128,
    pub visited_at: UtcTime,
}

/// A visit row read field by field and resolved through `map`; the first failure, as text.
pub open spec fn parse_visit_row(r: ForeignVisitRow, map: Map<i64, u128>) -> Result<VisitRowData, Seq<char>> {
    let id = read_int(r.id, "id"@);
    let item = read_int(r.history_item, "history_item"@);
    let time = read_int(r.visit_time, "visit_time"@);
    if id is Err {
        Err(id->Err_0)
    } else if item is Err {
        Err(item->Err_0)
    } else if time is Err {
        Err(time->Err_0)
    } else if read_time(time->Ok_0) is Err {
        Err(read_time(time->Ok_0)->Err_0)
    } else if !map.contains_key(item->Ok_0) {
        Err(unknown_url_text(item->Ok_0))
    } else {
        Ok(VisitRowData { url_id: map[item->Ok_0], visited_at: read_time(time->Ok_0)->Ok_0 })
    }
}

/// A canonical visit of a batch: the row's URL and instant, counted once, with the batch's
/// provenance and no duration.
pub open spec fn holds_visit_data(
    v: VisitRecord,
    d: VisitRowData,
    source_file: String,
    device_name: Option<String>,
) -> bool {
    &&& v.url_id == d.url_id
    &&& v.visited_at == d.visited_at
    &&& v.visit_count == 1
    &&& v.source_file == source_file
    &&& v.device_name == device_name
    &&& v.duration_sec is None
}

pub open spec fn accepted_visit_rows(rows: Seq<ForeignVisitRow>, map: Map<i64, u128>) -> Seq<VisitRowData>
    decreases rows.len(),
{
    if rows.len() == 0 {
        seq![]
    } else {
        let prev = accepted_visit_rows(rows.drop_last(), map);
        match parse_visit_row(rows.last(), map) {
            Ok(d) => prev.push(d),
            Err(_) => prev,
        }
    }
}

pub open spec fn visit_row_warnings(rows: Seq<ForeignVisitRow>, map: Map<i64, u128>) -> Seq<Seq<char>>
    decreases rows.len(),
{
    if rows.len() == 0 {
        seq![]
    } else {
        let prev = visit_row_warnings(rows.drop_last(), map);
        match parse_visit_row(rows.last(), map) {
            Ok(_) => prev,
            Err(t) => prev.push("Failed to process visit: "@ + t),
        }
    }
}

/// Foreign URL id to the canonical id minted for it, for one extraction only.
pub struct ForeignIdMap {
    ids: HashMap<i64, u128>,
}

impl View for ForeignIdMap {
    type V = Map<i64, u128>;

    closed spec fn view(&self) -> Map<i64, u128> {
        self.ids@
    }
}

impl ForeignIdMap {
    pub fn new() -> (r: ForeignIdMap)
        ensures
            r@ == Map::<i64, u128>::empty(),
    {
        ForeignIdMap { ids: HashMap::new() }
    }

    pub fn insert(&mut self, foreign_id: i64, id: u128)
        ensures
            final(self)@ == old(self)@.insert(foreign_id, id),
    {
        self.ids.insert(foreign_id, id);
    }

    pub fn get(&self, foreign_id: i64) -> (r: Option<u128>)
        ensures
            r == (if self@.contains_key(foreign_id) {
                Some(self@[foreign_id])
            } else {
                None
            }),
    {
        match self.ids.get(&foreign_id) {
            Some(id) => Some(*id),
            None => None,
        }
    }
}

/// Reads one visit row, resolves its URL, and builds its canonical visit.
fn process_visit_row(
    row: &ForeignVisitRow,
    source_file: &String,
    device_name: &Option<String>,
    map: &ForeignIdMap,
) -> (r: Result<VisitRecord, ExtractionError>)
    ensures
        match parse_visit_row(*row, map@) {
            Ok(d) => r is Ok && holds_visit_data(r->Ok_0, d, *source_file, *device_name),
            Err(t) => r is Err && extraction_error_text(r->Err_0) == t,
        },
{
    let id = int_cell(&row.id, "id");
    let item = int_cell(&row.history_item, "history_item");
    let time = int_cell(&row.visit_time, "visit_time");
    if let Err(e) = id {
        return Err(e);
    }
    let item = match item {
        Ok(v) => v,
        Err(e) => return Err(e),
    };
    let time = match time {
        Ok(v) => v,
        Err(e) => return Err(e),
    };
    let visited_at = match mac_to_utc(time) {
        Ok(v) => v,
        Err(e) => return Err(e),
    };
    let url_id = match map.get(item) {
        Some(v) => v,
        None => {
            return Err(
                ExtractionError::Parse(
                    String::from_str("Visit references unknown URL ID: ").concat(int_text(item).as_str()),
                ),
            );
        },
    };
    Ok(VisitRecord::new(url_id, visited_at, 1, source_file.clone(), copy_opt_text(device_name), None))
}

// ---------------------------------------------------------------- batches

/// Where a batch comes from.
#[derive(Debug, Clone)]
pub struct ExtractionSource {
    /// Path of the source file; the provenance of every visit of the batch.
    pub file_path: String,
    /// Label of the device the history was taken from.
    pub device_name: Option<String>,
    /// When the extraction ran.
    pub extraction_time: UtcTime,
}

/// The result of extracting one source file.
#[derive(Debug, Clone)]
pub struct RawHistoryData {
    pub source: ExtractionSource,
    pub urls: Vec<UrlRecord>,
    pub visits: Vec<VisitRecord>,
    /// Row-level failures, in the order they were met.
    pub warnings: Vec<String>,
}

pub open spec fn texts(v: Seq<String>) -> Seq<Seq<char>> {
    v.map_values(|s: String| s@)
}

pub open spec fn record_ids(urls: Seq<UrlRecord>) -> Seq<u128> {
    urls.map_values(|u: UrlRecord| u.id)
}

impl RawHistoryData {
    /// An empty batch for `file_path`, stamped with the current instant.
    pub fn new(file_path: String, device_name: Option<String>) -> (r: RawHistoryData)
        ensures
            r.source.file_path == file_path,
            r.source.device_name == device_name,
            r.source.extraction_time.wf(),
            r.urls@.len() == 0,
            r.visits@.len() == 0,
            r.warnings@.len() == 0,
    {
        RawHistoryData {
            source: ExtractionSource { file_path, device_name, extraction_time: UtcTime::now() },
            urls: Vec::new(),
            visits: Vec::new(),
            warnings: Vec::new(),
        }
    }

    pub fn add_warning(&mut self, message: &str)
        ensures
            final(self).warnings@ == old(self).warnings@.push(final(self).warnings@.last()),
            final(self).warnings@.last()@ == message@,
            final(self).source == old(self).source,
            final(self).urls == old(self).urls,
            final(self).visits == old(self).visits,
    {
        self.warnings.push(String::from_str(message));
    }

    /// Number of URLs and visits.
    pub fn total_items(&self) -> (r: usize)
        requires
            self.urls@.len() + self.visits@.len() <= usize::MAX,
        ensures
            r == self.urls@.len() + self.visits@.len(),
    {
        self.urls.len() + self.visits.len()
    }
}

/// The tables hold one named `name`.
pub open spec fn has_table(tables: Seq<String>, name: Seq<char>) -> bool {
    exists|i: int| 0 <= i < tables.len() && tables[i]@ == name
}

/// The first required table that is absent.
pub open spec fn missing_table(tables: Seq<String>) -> Option<Seq<char>> {
    if !has_table(tables, "history_items"@) {
        Some("history_items"@)
    } else if !has_table(tables, "history_visits"@) {
        Some("history_visits"@)
    } else {
        None
    }
}

pub open spec fn missing_table_text(name: Seq<char>) -> Seq<char> {
    "Unsupported schema: "@ + ("Not a Safari history database: missing '"@ + name + "' table"@)
}

fn table_present(tables: &Vec<String>, name: &str) -> (r: bool)
    ensures
        r == has_table(tables@, name@),
{
    let wanted = String::from_str(name);
    let mut i: usize = 0;
    while i < tables.len()
        invariant
            i <= tables@.len(),
            wanted@ == name@,
            forall|j: int| 0 <= j < i ==> tables@[j]@ != name@,
        decreases tables@.len() - i,
    {
        if tables[i] == wanted {
            return true;
        }
        i += 1;
    }
    false
}

/// Confirms that both foreign tables exist, before any row is read.
pub fn verify_safari_schema(tables: &Vec<String>) -> (r: Result<(), ExtractionError>)
    ensures
        r is Ok <==> missing_table(tables@) is None,
        r is Err ==> extraction_error_text(r->Err_0) == missing_table_text(missing_table(tables@)->Some_0),
{
    if !table_present(tables, "history_items") {
        return Err(
            ExtractionError::UnsupportedSchema(
                String::from_str("Not a Safari history database: missing '").concat("history_items").concat(
                    "' table",
                ),
            ),
        );
    }
    if !table_present(tables, "history_visits") {
        return Err(
            ExtractionError::UnsupportedSchema(
                String::from_str("Not a Safari history database: missing '").concat("history_visits").concat(
                    "' table",
                ),
            ),
        );
    }
    Ok(())
}

proof fn lemma_foreign_id_map_prefix(
    d1: Seq<UrlRowData>,
    i1: Seq<u128>,
    d2: Seq<UrlRowData>,
    i2: Seq<u128>,
    n: nat,
)
    requires
        n <= d1.len(),
        n <= d2.len(),
        n <= i1.len(),
        n <= i2.len(),
        forall|k: int| 0 <= k < n ==> d1[k] == d2[k] && i1[k] == i2[k],
    ensures
        foreign_id_map(d1, i1, n) == foreign_id_map(d2, i2, n),
    decreases n,
{
    if n > 0 {
        lemma_foreign_id_map_prefix(d1, i1, d2, i2, (n - 1) as nat);
    }
}

/// Reads every URL row into `data`, and maps each accepted row's foreign id to its new id.
fn extract_urls(rows: &Vec<ForeignUrlRow>, data: &mut RawHistoryData) -> (map: ForeignIdMap)
    requires
        old(data).urls@.len() == 0,
    ensures
        final(data).source == old(data).source,
        final(data).visits == old(data).visits,
        final(data).urls@.len() == accepted_url_rows(rows@).len(),
        forall|k: int|
            0 <= k < final(data).urls@.len() ==> holds_url_data(
                #[trigger] final(data).urls@[k],
                accepted_url_rows(rows@)[k],
            ),
        map@ == foreign_id_map(
            accepted_url_rows(rows@),
            record_ids(final(data).urls@),
            accepted_url_rows(rows@).len(),
        ),
        texts(final(data).warnings@) == texts(old(data).warnings@) + url_row_warnings(rows@),
{
    let mut map = ForeignIdMap::new();
    let mut i: usize = 0;
    while i < rows.len()
        invariant
            i <= rows@.len(),
            data.source == old(data).source,
            data.visits == old(data).visits,
            data.urls@.len() == accepted_url_rows(rows@.subrange(0, i as int)).len(),
            forall|k: int|
                0 <= k < data.urls@.len() ==> holds_url_data(
                    #[trigger] data.urls@[k],
                    accepted_url_rows(rows@.subrange(0, i as int))[k],
                ),
            map@ == foreign_id_map(
                accepted_url_rows(rows@.subrange(0, i as int)),
                record_ids(data.urls@),
                data.urls@.len(),
            ),
            texts(data.warnings@) == texts(old(data).warnings@) + url_row_warnings(
                rows@.subrange(0, i as int),
            ),
        decreases rows@.len() - i,
    {
        let ghost prefix = rows@.subrange(0, i as int);
        let ghost next = rows@.subrange(0, i + 1);
        assert(next.drop_last() =~= prefix);
        let ghost acc = accepted_url_rows(prefix);
        let ghost ids = record_ids(data.urls@);
        match process_url_row(&rows[i]) {
            Ok(pair) => {
                let (foreign_id, url) = pair;
                let new_id = url.id;
                data.urls.push(url);
                map.insert(foreign_id, new_id);
                proof {
                    let acc2 = accepted_url_rows(next);
                    let ids2 = record_ids(data.urls@);
                    assert(acc2 == acc.push(acc2.last()));
                    lemma_foreign_id_map_prefix(acc, ids, acc2, ids2, acc.len());
                    assert(ids2[acc.len() as int] == new_id);
                }
            },
            Err(e) => {
                let ghost w0 = data.warnings@;
                let msg = String::from_str("Failed to process URL: ").concat(e.message().as_str());
                data.warnings.push(msg);
                assert(texts(data.warnings@) =~= texts(w0).push(msg@));
                assert(url_row_warnings(next) == url_row_warnings(prefix).push(msg@));
                assert(texts(data.warnings@) =~= texts(old(data).warnings@) + url_row_warnings(next));
            },
        }
        i += 1;
    }
    assert(rows@.subrange(0, rows@.len() as int) =~= rows@);
    map
}

/// Builds the visits of `data` from the visit rows, resolving URLs through `map`.
fn extract_visits(rows: &Vec<ForeignVisitRow>, data: &mut RawHistoryData, map: &ForeignIdMap)
    requires
        old(data).visits@.len() == 0,
    ensures
        final(data).source == old(data).source,
        final(data).urls == old(data).urls,
        final(data).visits@.len() == accepted_visit_rows(rows@, map@).len(),
        forall|k: int|
            0 <= k < final(data).visits@.len() ==> holds_visit_data(
                #[trigger] final(data).visits@[k],
                accepted_visit_rows(rows@, map@)[k],
                old(data).source.file_path,
                old(data).source.device_name,
            ),
        texts(final(data).warnings@) == texts(old(data).warnings@) + visit_row_warnings(rows@, map@),
{
    let source_file = data.source.file_path.clone();
    let device_name = copy_opt_text(&data.source.device_name);
    let mut i: usize = 0;
    while i < rows.len()
        invariant
            i <= rows@.len(),
            data.source == old(data).source,
            data.urls == old(data).urls,
            source_file == old(data).source.file_path,
            device_name == old(data).source.device_name,
            data.visits@.len() == accepted_visit_rows(rows@.subrange(0, i as int), map@).len(),
            forall|k: int|
                0 <= k < data.visits@.len() ==> holds_visit_data(
                    #[trigger] data.visits@[k],
                    accepted_visit_rows(rows@.subrange(0, i as int), map@)[k],
                    source_file,
                    device_name,
                ),
            texts(data.warnings@) == texts(old(data).warnings@) + visit_row_warnings(
                rows@.subrange(0, i as int),
                map@,
            ),
        decreases rows@.len() - i,
    {
        let ghost prefix = rows@.subrange(0, i as int);
        let ghost next = rows@.subrange(0, i + 1);
        assert(next.drop_last() =~= prefix);
        match process_visit_row(&rows[i], &source_file, &device_name, map) {
            Ok(visit) => {
                data.visits.push(visit);
            },
            Err(e) => {
                let ghost w0 = data.warnings@;
                let msg = String::from_str("Failed to process visit: ").concat(e.message().as_str());
                data.warnings.push(msg);
                assert(texts(data.warnings@) =~= texts(w0).push(msg@));
                assert(visit_row_warnings(next, map@) == visit_row_warnings(prefix, map@).push(msg@));
                assert(texts(data.warnings@) =~= texts(old(data).warnings@) + visit_row_warnings(
                    next,
                    map@,
                ));
            },
        }
        i += 1;
    }
    assert(rows@.subrange(0, rows@.len() as int) =~= rows@);
}

/// Visit instants as ranking keys: later first.
pub open spec fn visit_row_keys(vacc: Seq<VisitRowData>) -> Seq<i128> {
    vacc.map_values(|d: VisitRowData| d.visited_at.secs as i128)
}

pub open spec fn visit_keys(visits: Seq<VisitRecord>) -> Seq<i128> {
    visits.map_values(|v: VisitRecord| v.visited_at.secs as i128)
}

/// The visits, latest first; visits at the same instant keep their order.
pub fn sort_visits_latest_first(visits: &Vec<VisitRecord>) -> (r: Vec<VisitRecord>)
    ensures
        r@.len() == visits@.len(),
        exists|order: Seq<int>|
            {
                &&& is_rank_order(visit_keys(visits@), order)
                &&& forall|k: int| 0 <= k < r@.len() ==> #[trigger] r@[k] == visits@[order[k]]
            },
        forall|i: int, j: int|
            0 <= i < j < r@.len() ==> (#[trigger] r@[i]).visited_at.secs >= (#[trigger] r@[j]).visited_at.secs,
{
    let mut keys: Vec<i128> = Vec::new();
    let mut i: usize = 0;
    while i < visits.len()
        invariant
            i <= visits@.len(),
            keys@.len() == i,
            forall|k: int| 0 <= k < i ==> #[trigger] keys@[k] == visits@[k].visited_at.secs as i128,
        decreases visits@.len() - i,
    {
        keys.push(visits[i].visited_at.secs as i128);
        i += 1;
    }
    assert(keys@ =~= visit_keys(visits@));
    let order = rank_order(&keys);
    let ghost o = as_ints(order@);
    let mut sorted: Vec<VisitRecord> = Vec::new();
    let mut k: usize = 0;
    while k < order.len()
        invariant
            k <= order@.len(),
            order@.len() == visits@.len(),
            o == as_ints(order@),
            is_rank_order(visit_keys(visits@), o),
            sorted@.len() == k,
            forall|m: int| 0 <= m < k ==> #[trigger] sorted@[m] == visits@[o[m]],
        decreases order@.len() - k,
    {
        assert(o[k as int] == order@[k as int] as int);
        sorted.push(visits[order[k]].duplicate());
        k += 1;
    }
    proof {
        assert forall|a: int, b: int|
            0 <= a < b < sorted@.len() implies (#[trigger] sorted@[a]).visited_at.secs >= (
            #[trigger] sorted@[b]).visited_at.secs by {
            assert(crate::ranking::ranks_before(visit_keys(visits@), o[a], o[b]));
        }
    }
    sorted
}

/// `d` is what extracting `h` gives, for this path and device, whatever ids were minted: one
/// URL per accepted URL row, in row order; one visit per accepted visit row, latest first
/// (rows at the same instant in row order); one warning per rejected row.
pub open spec fn extracted_from(
    d: RawHistoryData,
    file_path: String,
    device_name: Option<String>,
    h: ForeignHistory,
) -> bool {
    let acc = accepted_url_rows(h.url_rows@);
    let map = foreign_id_map(acc, record_ids(d.urls@), acc.len());
    let vacc = accepted_visit_rows(h.visit_rows@, map);
    &&& d.source.file_path == file_path
    &&& d.source.device_name == device_name
    &&& d.source.extraction_time.wf()
    &&& d.urls@.len() == acc.len()
    &&& forall|k: int| 0 <= k < acc.len() ==> holds_url_data(#[trigger] d.urls@[k], acc[k])
    &&& d.visits@.len() == vacc.len()
    &&& exists|order: Seq<int>|
        {
            &&& is_rank_order(visit_row_keys(vacc), order)
            &&& forall|k: int|
                0 <= k < vacc.len() ==> holds_visit_data(
                    #[trigger] d.visits@[k],
                    vacc[order[k]],
                    file_path,
                    device_name,
                )
        }
    &&& forall|i: int, j: int|
        0 <= i < j < d.visits@.len() ==> (#[trigger] d.visits@[i]).visited_at.secs >= (
        #[trigger] d.visits@[j]).visited_at.secs
    &&& forall|k: int|
        0 <= k < d.visits@.len() ==> exists|j: int|
            0 <= j < d.urls@.len() && d.urls@[j].id == (#[trigger] d.visits@[k]).url_id
    &&& texts(d.warnings@) == url_row_warnings(h.url_rows@) + visit_row_warnings(h.visit_rows@, map)
}

/// Every canonical id in the id map is one of the ids minted so far.
proof fn lemma_foreign_id_map_values(data: Seq<UrlRowData>, ids: Seq<u128>, n: nat, key: i64)
    requires
        n <= data.len(),
        n <= ids.len(),
        foreign_id_map(data, ids, n).contains_key(key),
    ensures
        exists|j: int| 0 <= j < n && ids[j] == foreign_id_map(data, ids, n)[key],
    decreases n,
{
    if data[n - 1].foreign_id != key {
        lemma_foreign_id_map_values(data, ids, (n - 1) as nat, key);
    } else {
        assert(ids[n - 1] == foreign_id_map(data, ids, n)[key]);
    }
}

/// `id` is a value of the map.
pub open spec fn maps_to(map: Map<i64, u128>, id: u128) -> bool {
    exists|key: i64| map.contains_key(key) && map[key] == id
}

/// Every accepted visit row resolved to a value of the map.
proof fn lemma_accepted_visits_resolved(rows: Seq<ForeignVisitRow>, map: Map<i64, u128>)
    ensures
        forall|k: int|
            0 <= k < accepted_visit_rows(rows, map).len() ==> maps_to(
                map,
                (#[trigger] accepted_visit_rows(rows, map)[k]).url_id,
            ),
    decreases rows.len(),
{
    if rows.len() > 0 {
        lemma_accepted_visits_resolved(rows.drop_last(), map);
        let prev = accepted_visit_rows(rows.drop_last(), map);
        let cur = accepted_visit_rows(rows, map);
        assert forall|k: int| 0 <= k < cur.len() implies maps_to(map, (#[trigger] cur[k]).url_id) by {
            if k < prev.len() {
                assert(cur[k] == prev[k]);
                let key = choose|key: i64| map.contains_key(key) && map[key] == prev[k].url_id;
                assert(map.contains_key(key) && map[key] == cur[k].url_id);
            } else {
                let item = read_int(rows.last().history_item, "history_item"@)->Ok_0;
                assert(map.contains_key(item) && map[item] == cur[k].url_id);
            }
        }
    }
}

/// Every URL row gives either a URL or a warning, and every visit row either a visit or a
/// warning: no row is lost and none counted twice.
pub proof fn lemma_rows_accounted(url_rows: Seq<ForeignUrlRow>, visit_rows: Seq<ForeignVisitRow>, map: Map<i64, u128>)
    ensures
        accepted_url_rows(url_rows).len() + url_row_warnings(url_rows).len() == url_rows.len(),
        accepted_visit_rows(visit_rows, map).len() + visit_row_warnings(visit_rows, map).len() == visit_rows.len(),
    decreases url_rows.len() + visit_rows.len(),
{
    if url_rows.len() > 0 {
        lemma_rows_accounted(url_rows.drop_last(), visit_rows, map);
    } else if visit_rows.len() > 0 {
        lemma_rows_accounted(url_rows, visit_rows.drop_last(), map);
    }
}

/// Extracts one foreign database: the schema is checked first, then URL rows, then visit
/// rows, and the visits are ordered latest first.
pub fn extract_history(file_path: String, device_name: Option<String>, history: &ForeignHistory) -> (r:
    Result<RawHistoryData, ExtractionError>)
    ensures
        r is Ok <==> missing_table(history.tables@) is None,
        r is Err ==> extraction_error_text(r->Err_0) == missing_table_text(
            missing_table(history.tables@)->Some_0,
        ),
        r is Ok ==> extracted_from(r->Ok_0, file_path, device_name, *history),
{
    match verify_safari_schema(&history.tables) {
        Ok(()) => {},
        Err(e) => return Err(e),
    }
    let mut data = RawHistoryData::new(file_path, device_name);
    let map = extract_urls(&history.url_rows, &mut data);
    extract_visits(&history.visit_rows, &mut data, &map);
    let ghost vacc = accepted_visit_rows(history.visit_rows@, map@);
    let ghost unsorted = data.visits@;
    let sorted = sort_visits_latest_first(&data.visits);
    data.visits = sorted;
    proof {
        let acc = accepted_url_rows(history.url_rows@);
        assert(visit_keys(unsorted) =~= visit_row_keys(vacc));
        let order = choose|order: Seq<int>|
            {
                &&& is_rank_order(visit_keys(unsorted), order)
                &&& forall|k: int| 0 <= k < data.visits@.len() ==> #[trigger] data.visits@[k] == unsorted[order[k]]
            };
        assert forall|k: int| 0 <= k < vacc.len() implies holds_visit_data(
            #[trigger] data.visits@[k],
            vacc[order[k]],
            data.source.file_path,
            data.source.device_name,
        ) by {
            assert(data.visits@[k] == unsorted[order[k]]);
        }
        lemma_accepted_visits_resolved(history.visit_rows@, map@);
        assert forall|k: int| 0 <= k < data.visits@.len() implies exists|j: int|
            0 <= j < data.urls@.len() && data.urls@[j].id == (#[trigger] data.visits@[k]).url_id by {
            let v = data.visits@[k];
            assert(v == unsorted[order[k]]);
            assert(holds_visit_data(unsorted[order[k]], vacc[order[k]], data.source.file_path, data.source.device_name));
            assert(maps_to(map@, vacc[order[k]].url_id));
            let key = choose|key: i64| map@.contains_key(key) && map@[key] == vacc[order[k]].url_id;
            lemma_foreign_id_map_values(acc, record_ids(data.urls@), acc.len(), key);
            let j = choose|j: int| 0 <= j < acc.len() && record_ids(data.urls@)[j] == map@[key];
            assert(data.urls@[j].id == record_ids(data.urls@)[j]);
        }
    }
    assert(texts(data.warnings@) =~= url_row_warnings(history.url_rows@) + visit_row_warnings(
        history.visit_rows@,
        map@,
    ));
    Ok(data)
}

/// One source file, as far as it could be read.
#[derive(Debug)]
pub struct SourceFile {
    pub path: String,
    /// Its tables and rows, or why it could not be opened or read.
    pub contents: Result<ForeignHistory, ExtractionError>,
}

/// The file extracts to a batch.
pub open spec fn file_extracts(f: SourceFile) -> bool {
    f.contents is Ok && missing_table(f.contents->Ok_0.tables@) is None
}

/// Indices of the files that extract, in order.
pub open spec fn extracting_files(files: Seq<SourceFile>) -> Seq<int>
    decreases files.len(),
{
    if files.len() == 0 {
        seq![]
    } else {
        let prev = extracting_files(files.drop_last());
        if file_extracts(files.last()) {
            prev.push(files.len() - 1)
        } else {
            prev
        }
    }
}

/// Indices of the files that fail, in order.
pub open spec fn failing_files(files: Seq<SourceFile>) -> Seq<int>
    decreases files.len(),
{
    if files.len() == 0 {
        seq![]
    } else {
        let prev = failing_files(files.drop_last());
        if file_extracts(files.last()) {
            prev
        } else {
            prev.push(files.len() - 1)
        }
    }
}

/// The device label given for the `i`-th file, if any.
pub open spec fn device_for(names: Option<Seq<String>>, i: int) -> Option<String> {
    match names {
        Some(n) => if 0 <= i < n.len() {
            Some(n[i])
        } else {
            None
        },
        None => None,
    }
}

/// Why a failing file failed, as text.
pub open spec fn failure_text(f: SourceFile) -> Seq<char> {
    match f.contents {
        Err(e) => extraction_error_text(e),
        Ok(h) => missing_table_text(missing_table(h.tables@)->Some_0),
    }
}

pub open spec fn opt_view(names: Option<&Vec<String>>) -> Option<Seq<String>> {
    match names {
        Some(n) => Some(n@),
        None => None,
    }
}

/// Whether a file lands among the batches or among the failures depends on that file
/// alone, and every file lands in exactly one of the two.
pub proof fn lemma_file_outcome_is_its_own(files: Seq<SourceFile>)
    ensures
        forall|i: int| 0 <= i < files.len() ==> (extracting_files(files).contains(i) <==> file_extracts(#[trigger] files[i])),
        forall|i: int| 0 <= i < files.len() ==> (failing_files(files).contains(i) <==> !file_extracts(#[trigger] files[i])),
        forall|k: int| 0 <= k < extracting_files(files).len() ==> 0 <= #[trigger] extracting_files(files)[k] < files.len(),
        forall|k: int| 0 <= k < failing_files(files).len() ==> 0 <= #[trigger] failing_files(files)[k] < files.len(),
        extracting_files(files).len() + failing_files(files).len() == files.len(),
    decreases files.len(),
{
    if files.len() > 0 {
        let init = files.drop_last();
        lemma_file_outcome_is_its_own(init);
        let n = files.len() - 1;
        assert forall|i: int| 0 <= i < files.len() implies (extracting_files(files).contains(i) <==> file_extracts(
            #[trigger] files[i],
        )) by {
            let e = extracting_files(files);
            let pe = extracting_files(init);
            if i < n {
                assert(files[i] == init[i]);
                if pe.contains(i) {
                    let k = choose|k: int| 0 <= k < pe.len() && pe[k] == i;
                    assert(e[k] == i);
                }
                if e.contains(i) {
                    let k = choose|k: int| 0 <= k < e.len() && e[k] == i;
                    if k < pe.len() {
                        assert(pe[k] == i);
                    }
                }
            } else {
                if file_extracts(files[i]) {
                    assert(e[pe.len() as int] == i);
                }
                if e.contains(i) {
                    let k = choose|k: int| 0 <= k < e.len() && e[k] == i;
                    if k < pe.len() {
                        assert(pe[k] < n);
                    }
                }
            }
        }
        assert forall|i: int| 0 <= i < files.len() implies (failing_files(files).contains(i) <==> !file_extracts(
            #[trigger] files[i],
        )) by {
            let e = failing_files(files);
            let pe = failing_files(init);
            if i < n {
                assert(files[i] == init[i]);
                if pe.contains(i) {
                    let k = choose|k: int| 0 <= k < pe.len() && pe[k] == i;
                    assert(e[k] == i);
                }
                if e.contains(i) {
                    let k = choose|k: int| 0 <= k < e.len() && e[k] == i;
                    if k < pe.len() {
                        assert(pe[k] == i);
                    }
                }
            } else {
                if !file_extracts(files[i]) {
                    assert(e[pe.len() as int] == i);
                }
                if e.contains(i) {
                    let k = choose|k: int| 0 <= k < e.len() && e[k] == i;
                    if k < pe.len() {
                        assert(pe[k] < n);
                    }
                }
            }
        }
    }
}

/// Extracts each file independently; a failing file never affects the others.
pub fn parse_history_db(files: &Vec<SourceFile>, device_names: Option<&Vec<String>>) -> (r: (
    Vec<RawHistoryData>,
    Vec<FailedFile>,
))
    ensures
        r.0@.len() == extracting_files(files@).len(),
        r.1@.len() == failing_files(files@).len(),
        forall|k: int|
            0 <= k < r.0@.len() ==> {
                let i = extracting_files(files@)[k];
                extracted_from(
                    #[trigger] r.0@[k],
                    files@[i].path,
                    device_for(opt_view(device_names), i),
                    files@[i].contents->Ok_0,
                )
            },
        forall|k: int|
            0 <= k < r.1@.len() ==> {
                let i = failing_files(files@)[k];
                &&& (#[trigger] r.1@[k]).path == files@[i].path
                &&& extraction_error_text(r.1@[k].error) == failure_text(files@[i])
            },
{
    let mut successful: Vec<RawHistoryData> = Vec::new();
    let mut failed: Vec<FailedFile> = Vec::new();
    let mut i: usize = 0;
    while i < files.len()
        invariant
            i <= files@.len(),
            successful@.len() == extracting_files(files@.subrange(0, i as int)).len(),
            failed@.len() == failing_files(files@.subrange(0, i as int)).len(),
            forall|k: int| 0 <= k < extracting_files(files@.subrange(0, i as int)).len() ==>
                0 <= #[trigger] extracting_files(files@.subrange(0, i as int))[k] < i,
            forall|k: int| 0 <= k < failing_files(files@.subrange(0, i as int)).len() ==>
                0 <= #[trigger] failing_files(files@.subrange(0, i as int))[k] < i,
            forall|k: int|
                0 <= k < successful@.len() ==> {
                    let j = extracting_files(files@.subrange(0, i as int))[k];
                    extracted_from(
                        #[trigger] successful@[k],
                        files@[j].path,
                        device_for(opt_view(device_names), j),
                        files@[j].contents->Ok_0,
                    )
                },
            forall|k: int|
                0 <= k < failed@.len() ==> {
                    let j = failing_files(files@.subrange(0, i as int))[k];
                    &&& (#[trigger] failed@[k]).path == files@[j].path
                    &&& extraction_error_text(failed@[k].error) == failure_text(files@[j])
                },
        decreases files@.len() - i,
    {
        let ghost prefix = files@.subrange(0, i as int);
        let ghost next = files@.subrange(0, i + 1);
        assert(next.drop_last() =~= prefix);
        assert(next.last() == files@[i as int]);
        let device_name = match device_names {
            Some(names) => if i < names.len() {
                Some(names[i].clone())
            } else {
                None
            },
            None => None,
        };
        let file = &files[i];
        match &file.contents {
            Ok(history) => match extract_history(file.path.clone(), device_name, history) {
                Ok(data) => successful.push(data),
                Err(e) => failed.push(FailedFile::new(file.path.clone(), e)),
            },
            Err(e) => failed.push(FailedFile::new(file.path.clone(), e.duplicate())),
        }
        i += 1;
    }
    assert(files@.subrange(0, files@.len() as int) =~= files@);
    (successful, failed)
}

/// A visit row whose URL cannot be resolved is dropped with a warning, and the other rows
/// still give the visits they give without it.
pub proof fn lemma_unresolved_visit_dropped(
    before: Seq<ForeignVisitRow>,
    row: ForeignVisitRow,
    after: Seq<ForeignVisitRow>,
    map: Map<i64, u128>,
)
    requires
        read_int(row.id, "id"@) is Ok,
        read_int(row.history_item, "history_item"@) is Ok,
        read_int(row.visit_time, "visit_time"@) is Ok,
        read_time(read_int(row.visit_time, "visit_time"@)->Ok_0) is Ok,
        !map.contains_key(read_int(row.history_item, "history_item"@)->Ok_0),
    ensures
        accepted_visit_rows(before + seq![row] + after, map) == accepted_visit_rows(before + after, map),
        visit_row_warnings(before.push(row), map) == visit_row_warnings(before, map).push(
            "Failed to process visit: "@ + unknown_url_text(read_int(row.history_item, "history_item"@)->Ok_0),
        ),
    decreases after.len(),
{
    if after.len() == 0 {
        assert((before + seq![row] + after).drop_last() =~= before);
        assert(before + after =~= before);
        assert(before.push(row) =~= before + seq![row] + after);
    } else {
        lemma_unresolved_visit_dropped(before, row, after.drop_last(), map);
        assert((before + seq![row] + after).drop_last() =~= before + seq![row] + after.drop_last());
        assert((before + after).drop_last() =~= before + after.drop_last());
    }
}

// ---------------------------------------------------------------- domains

/// What parsing `s` as a URL gives: `None` if it does not parse, else its host, if it has one.
pub uninterp spec fn parsed_host(s: Seq<char>) -> Option<Option<Seq<char>>>;

/// Relies on url's `Url::parse` and `Url::host_str`: whether the text parses as a URL, and the
/// host of the parsed URL, if it has one.
#[verifier::external_body]
fn url_host(s: &str) -> (r: Option<Option<String>>)
    ensures
        match r {
            None => parsed_host(s@) is None,
            Some(None) => parsed_host(s@) == Some(None::<Seq<char>>),
            Some(Some(h)) => parsed_host(s@) == Some(Some(h@)),
        },
{
    match url::Url::parse(s) {
        Ok(parsed) => Some(parsed.host_str().map(|h| h.to_string())),
        Err(_) => None,
    }
}

/// Text of the error for a text that is no URL.
pub open spec fn invalid_url_text(s: Seq<char>) -> Seq<char> {
    "Parse error: "@ + ("Invalid URL: "@ + s)
}

/// Text of the error for a URL without host.
pub open spec fn hostless_url_text(s: Seq<char>) -> Seq<char> {
    "Parse error: "@ + ("URL has no host: "@ + s)
}

/// The domain of `url_str`, given what parsing it gave: its host, or why there is none.
pub fn domain_from_parse(url_str: &str, parsed: Option<Option<String>>) -> (r: Result<String, ExtractionError>)
    ensures
        match parsed {
            None => r is Err && extraction_error_text(r->Err_0) == invalid_url_text(url_str@),
            Some(None) => r is Err && extraction_error_text(r->Err_0) == hostless_url_text(url_str@),
            Some(Some(h)) => r == Ok::<String, ExtractionError>(h),
        },
{
    match parsed {
        Some(Some(host)) => Ok(host),
        Some(None) => Err(ExtractionError::Parse(String::from_str("URL has no host: ").concat(url_str))),
        None => Err(ExtractionError::Parse(String::from_str("Invalid URL: ").concat(url_str))),
    }
}

/// The host part of a URL text.
pub fn extract_domain(url_str: &str) -> (r: Result<String, ExtractionError>)
    ensures
        match parsed_host(url_str@) {
            None => r is Err && extraction_error_text(r->Err_0) == invalid_url_text(url_str@),
            Some(None) => r is Err && extraction_error_text(r->Err_0) == hostless_url_text(url_str@),
            Some(Some(h)) => r is Ok && r->Ok_0@ == h,
        },
{
    domain_from_parse(url_str, url_host(url_str))
}

} // verus!
