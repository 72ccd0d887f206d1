use log_store::commands::{
    clear_all_logs, delete_logs_older_than, get_log_by_id, get_log_stats, get_log_store_settings,
    ingest_logs, init_db, optimize_log_db, run_scheduled_sweep, set_log_store_settings,
};
use log_store::models::{IngestLogEntry, LogEntry, LogFilters, LogStoreSettings};
use log_store::query::query_logs;
use log_store::search::{search_logs, search_terms, SearchError};
use log_store::store::{ingest_at, LogStore};

fn event(ts: i64, message: &str) -> IngestLogEntry {
    IngestLogEntry {
        id: format!("ev-{}", ts),
        timestamp: ts,
        function_identifier: None,
        function_name: None,
        udf_type: None,
        request_id: None,
        execution_id: None,
        success: None,
        duration_ms: None,
        error: None,
        log_lines: Some(vec![message.to_string()]),
        raw: None,
    }
}

fn ids(v: &[LogEntry]) -> Vec<String> {
    v.iter().map(|e| e.id.clone()).collect()
}

#[test]
fn ingest_twice_counts_duplicates() {
    let mut store = init_db();
    let batch = vec![event(1, "a"), event(2, "b"), event(3, "c")];
    let again = vec![event(1, "a"), event(2, "b"), event(3, "c")];
    let first = ingest_logs(&mut store, batch, "dep".to_string(), 10);
    assert_eq!((first.inserted, first.duplicates, first.errors), (3, 0, 0));
    let second = ingest_logs(&mut store, again, "dep".to_string(), 20);
    assert_eq!((second.inserted, second.duplicates, second.errors), (0, 3, 0));
    assert_eq!(store.len(), 3);
}

#[test]
fn duplicate_within_one_batch() {
    let mut store = init_db();
    let r = ingest_at(&mut store, vec![event(5, "same"), event(5, "same")], "d".to_string(), 99);
    assert_eq!((r.inserted, r.duplicates), (1, 1));
}

#[test]
fn same_identity_differing_unrelated_fields() {
    let mut store = init_db();
    let mut a = event(1000, "x");
    a.request_id = Some("r1".to_string());
    a.function_identifier = Some("f".to_string());
    a.success = Some(false);
    a.execution_id = Some("e1".to_string());
    a.duration_ms = Some(5);
    a.raw = Some("{\"n\":1}".to_string());
    let mut b = event(1000, "x");
    b.id = "other".to_string();
    b.request_id = Some("r1".to_string());
    b.function_identifier = Some("f".to_string());
    b.success = Some(false);
    b.execution_id = Some("e2".to_string());
    b.duration_ms = Some(7);
    b.udf_type = Some("query".to_string());
    let r1 = ingest_logs(&mut store, vec![a], "d1".to_string(), 1);
    let r2 = ingest_logs(&mut store, vec![b], "d1".to_string(), 2);
    assert_eq!((r1.inserted, r1.duplicates), (1, 0));
    assert_eq!((r2.inserted, r2.duplicates), (0, 1));
    assert_eq!(store.len(), 1);
    let page = query_logs(&store, &LogFilters::none(), None, None);
    let row = &page.logs[0];
    assert_eq!(row.level, Some("ERROR".to_string()));
    assert_eq!(row.message, "x");
    assert_eq!(row.execution_id, Some("e1".to_string()));
    assert_eq!(row.json_blob, "{\"n\":1}");
}

#[test]
fn ingested_row_fields() {
    let mut store = init_db();
    let mut e = event(42, "ignored");
    e.log_lines = None;
    e.function_name = Some("run".to_string());
    e.udf_type = Some("Mutation".to_string());
    e.success = Some(true);
    ingest_at(&mut store, vec![e], "dep".to_string(), 777);
    let page = query_logs(&store, &LogFilters::none(), None, None);
    let row = &page.logs[0];
    assert_eq!(row.message, "Function 'run' executed");
    assert_eq!(row.level, Some("INFO".to_string()));
    assert_eq!(row.topic, Some("function".to_string()));
    assert_eq!(row.udf_type, Some("Mutation".to_string()));
    assert_eq!(row.json_blob, "{}");
    assert_eq!(row.created_at, 777);
    assert_eq!(row.ts, 42);
    let found = get_log_by_id(&store, &row.id).unwrap();
    assert_eq!(found.message, row.message);
    assert!(get_log_by_id(&store, &"nope".to_string()).is_none());
}

fn filled(n: i64) -> LogStore {
    let mut store = init_db();
    let mut batch = Vec::new();
    for i in 0..n {
        batch.push(event(1000 + (i % 3), &format!("m{}", i)));
    }
    ingest_at(&mut store, batch, "d".to_string(), 0);
    store
}

#[test]
fn pages_cover_every_row_once_in_order() {
    let store = filled(7);
    let all = query_logs(&store, &LogFilters::none(), Some(1000), None);
    assert_eq!(all.logs.len(), 7);
    for w in all.logs.windows(2) {
        assert!(w[0].ts > w[1].ts || (w[0].ts == w[1].ts && w[0].id > w[1].id));
    }
    let mut seen: Vec<String> = Vec::new();
    let mut cursor: Option<String> = None;
    loop {
        let page = query_logs(&store, &LogFilters::none(), Some(2), cursor.clone());
        assert_eq!(page.total_count, 7);
        seen.extend(ids(&page.logs));
        if !page.has_more {
            break;
        }
        cursor = page.cursor.clone();
    }
    assert_eq!(seen, ids(&all.logs));
}

#[test]
fn single_row_pages() {
    let store = filled(2);
    let two = query_logs(&store, &LogFilters::none(), Some(1), None);
    assert!(two.has_more);
    assert_eq!(two.logs.len(), 1);
    let one = filled(1);
    let page = query_logs(&one, &LogFilters::none(), Some(1), None);
    assert!(!page.has_more);
    assert_eq!(page.logs.len(), 1);
    assert_eq!(page.cursor, Some(format!("{}:{}", page.logs[0].ts, page.logs[0].id)));
}

#[test]
fn limits_default_and_bounds() {
    let store = filled(5);
    assert_eq!(query_logs(&store, &LogFilters::none(), None, None).logs.len(), 5);
    let zero = query_logs(&store, &LogFilters::none(), Some(0), None);
    assert_eq!(zero.logs.len(), 1);
    assert!(zero.has_more);
    assert!(zero.cursor.is_some());
    assert_eq!(query_logs(&store, &LogFilters::none(), Some(-1), None).logs.len(), 1);
    assert_eq!(query_logs(&store, &LogFilters::none(), Some(i32::MIN), None).logs.len(), 1);
    assert_eq!(query_logs(&store, &LogFilters::none(), Some(5000), None).logs.len(), 5);
    let many = filled(1005);
    let capped = query_logs(&many, &LogFilters::none(), Some(5000), None);
    assert_eq!(capped.logs.len(), 1000);
    assert!(capped.has_more);
    assert_eq!(capped.total_count, 1005);
    assert_eq!(query_logs(&many, &LogFilters::none(), None, None).logs.len(), 100);
    let empty = init_db();
    let page = query_logs(&empty, &LogFilters::none(), None, None);
    assert_eq!((page.logs.len(), page.total_count, page.has_more), (0, 0, false));
    assert_eq!(page.cursor, None);
}

#[test]
fn page_sizes_and_count() {
    let store = filled(7);
    let mut sizes = Vec::new();
    let mut cursor: Option<String> = None;
    loop {
        let page = query_logs(&store, &LogFilters::none(), Some(3), cursor.clone());
        sizes.push(page.logs.len());
        if !page.has_more {
            break;
        }
        cursor = page.cursor.clone();
    }
    assert_eq!(sizes, vec![3, 3, 1]);
}

#[test]
fn filters_apply_conjunctively() {
    let mut store = init_db();
    let mut a = event(10, "a");
    a.success = Some(true);
    a.request_id = Some("r".to_string());
    let mut b = event(20, "b");
    b.success = Some(false);
    b.function_identifier = Some("fp".to_string());
    ingest_at(&mut store, vec![a, event(30, "c")], "one".to_string(), 0);
    ingest_at(&mut store, vec![b], "two".to_string(), 0);
    let mut f = LogFilters::none();
    f.deployment = Some("one".to_string());
    assert_eq!(query_logs(&store, &f, None, None).total_count, 2);
    f.start_ts = Some(15);
    let p = query_logs(&store, &f, None, None);
    assert_eq!(p.logs.len(), 1);
    assert_eq!(p.logs[0].ts, 30);
    let mut g = LogFilters::none();
    g.levels = Some(vec!["ERROR".to_string()]);
    assert_eq!(query_logs(&store, &g, None, None).logs[0].ts, 20);
    g.levels = Some(vec![]);
    assert_eq!(query_logs(&store, &g, None, None).total_count, 3);
    let mut h = LogFilters::none();
    h.success = Some(true);
    h.request_id = Some("r".to_string());
    assert_eq!(query_logs(&store, &h, None, None).logs[0].ts, 10);
    let mut k = LogFilters::none();
    k.function_path = Some("fp".to_string());
    k.end_ts = Some(25);
    assert_eq!(query_logs(&store, &k, None, None).total_count, 1);
}

#[test]
fn unreadable_cursor_starts_from_top() {
    let store = filled(3);
    let page = query_logs(&store, &LogFilters::none(), None, Some("garbage".to_string()));
    assert_eq!(page.logs.len(), 3);
}

#[test]
fn search_finds_only_matching_message() {
    let mut store = init_db();
    ingest_at(&mut store, vec![event(1, "boom failed"), event(2, "all good")], "d".to_string(), 0);
    let r = search_logs(&store, "boom", &LogFilters::none(), None).unwrap();
    assert_eq!(r.logs.len(), 1);
    assert_eq!(r.logs[0].message, "boom failed");
    assert_eq!(r.total_count, 1);
    assert!(!r.has_more);
    assert_eq!(r.cursor, None);
}

#[test]
fn search_is_case_insensitive_and_conjunctive() {
    let mut store = init_db();
    let mut e = event(1, "Boom Failed");
    e.function_identifier = Some("api/sendMail".to_string());
    ingest_at(&mut store, vec![e, event(2, "boom ok")], "d".to_string(), 0);
    assert_eq!(search_logs(&store, "BOOM", &LogFilters::none(), None).unwrap().logs.len(), 2);
    assert_eq!(search_logs(&store, "boom failed", &LogFilters::none(), None).unwrap().logs.len(), 1);
    assert_eq!(search_logs(&store, "sendmail", &LogFilters::none(), None).unwrap().logs.len(), 1);
    assert_eq!(search_logs(&store, "boom", &LogFilters::none(), Some(1)).unwrap().logs[0].ts, 2);
    let mut f = LogFilters::none();
    f.end_ts = Some(1);
    assert_eq!(search_logs(&store, "boom", &f, None).unwrap().logs.len(), 1);
    let terms = vec!["ok".to_string()];
    assert_eq!(search_terms(&store, &terms, &LogFilters::none(), None).logs[0].ts, 2);
}

#[test]
fn search_folds_stems_and_accents() {
    let mut store = init_db();
    ingest_at(
        &mut store,
        vec![event(1, "boom failed"), event(2, "Café opened"), event(3, "one\u{2014}two")],
        "d".to_string(),
        0,
    );
    let hits = |q: &str| search_logs(&store, q, &LogFilters::none(), None).unwrap().logs.len();
    assert_eq!(hits("failing"), 1);
    assert_eq!(hits("fails"), 1);
    assert_eq!(hits("cafe"), 1);
    assert_eq!(hits("CAFÉ"), 1);
    assert_eq!(hits("two"), 1);
    assert_eq!(hits("opening"), 1);
}

#[test]
fn search_rejects_empty_and_termless_queries() {
    let store = filled(1);
    assert_eq!(search_logs(&store, "   ", &LogFilters::none(), None).unwrap_err(), SearchError::EmptyQuery);
    assert_eq!(search_logs(&store, "!!!", &LogFilters::none(), None).unwrap_err(), SearchError::NoSearchTerms);
}

#[test]
fn retention_deletes_only_older_rows() {
    let day = 86_400_000i64;
    let now = 100 * day;
    let mut store = init_db();
    ingest_at(
        &mut store,
        vec![event(now - 3 * day, "old"), event(now - day, "edge"), event(now, "new")],
        "d".to_string(),
        0,
    );
    let gone = delete_logs_older_than(&mut store, 1, now);
    assert_eq!(gone, 1);
    let page = query_logs(&store, &LogFilters::none(), None, None);
    assert!(page.logs.iter().all(|e| e.ts >= now - day));
    assert_eq!(page.logs.len(), 2);
    assert_eq!(delete_logs_older_than(&mut store, 0, now + 1), 2);
    assert_eq!(store.len(), 0);
}

#[test]
fn retention_with_extreme_windows() {
    let mut store = filled(3);
    assert_eq!(delete_logs_older_than(&mut store, i32::MAX, i64::MIN + 5), 0);
    assert_eq!(store.len(), 3);
    assert_eq!(delete_logs_older_than(&mut store, i32::MIN, i64::MAX - 5), 3);
    assert_eq!(store.len(), 0);
}

#[test]
fn scheduled_sweep_uses_settings() {
    let mut store = init_db();
    ingest_at(&mut store, vec![event(1, "ancient"), event(i64::MAX, "future")], "d".to_string(), 0);
    assert_eq!(run_scheduled_sweep(&mut store, 40 * 86_400_000), 1);
    assert_eq!(store.len(), 1);
}

#[test]
fn stats_figures() {
    let mut store = init_db();
    let empty = get_log_stats(&store, 0);
    assert_eq!((empty.total_logs, empty.oldest_ts, empty.newest_ts), (0, None, None));
    ingest_at(&mut store, vec![event(5, "a"), event(9, "b")], "one".to_string(), 0);
    ingest_at(&mut store, vec![event(7, "c")], "two".to_string(), 0);
    let s = get_log_stats(&store, 4096);
    assert_eq!(s.total_logs, 3);
    assert_eq!(s.oldest_ts, Some(5));
    assert_eq!(s.newest_ts, Some(9));
    assert_eq!(s.db_size_bytes, 4096);
    let mut by = s.logs_by_deployment.clone();
    by.sort();
    assert_eq!(by, vec![("one".to_string(), 2), ("two".to_string(), 1)]);
}

#[test]
fn settings_defaults_and_round_trip() {
    let mut store = init_db();
    assert_eq!(get_log_store_settings(&store), LogStoreSettings { retention_days: 30, enabled: true });
    set_log_store_settings(&mut store, LogStoreSettings { retention_days: -4, enabled: false });
    assert_eq!(get_log_store_settings(&store), LogStoreSettings { retention_days: -4, enabled: false });
    let bare = LogStore::new();
    assert_eq!(get_log_store_settings(&bare), LogStoreSettings { retention_days: 30, enabled: true });
}

#[test]
fn malformed_settings_fall_back() {
    let mut store = LogStore::new();
    store.record_setting("retention_days".to_string(), "soon".to_string());
    store.record_setting("enabled".to_string(), "yes".to_string());
    assert_eq!(get_log_store_settings(&store), LogStoreSettings { retention_days: 30, enabled: false });
    assert_eq!(store.setting("enabled"), Some("yes".to_string()));
}

#[test]
fn clear_and_optimize() {
    let mut store = filled(4);
    optimize_log_db(&mut store);
    assert_eq!(store.len(), 4);
    assert_eq!(search_logs(&store, "m2", &LogFilters::none(), None).unwrap().logs.len(), 1);
    clear_all_logs(&mut store);
    assert_eq!(store.len(), 0);
    assert_eq!(get_log_store_settings(&store).retention_days, 30);
}

#[test]
fn restoring_rows() {
    let mut store = LogStore::new();
    let mut rows = filled(2).export_rows();
    let b = rows.pop().unwrap();
    let a = rows.pop().unwrap();
    let again = a.duplicate();
    assert!(store.restore_row(b));
    assert!(store.restore_row(a));
    assert!(!store.restore_row(again));
    let mut bad = event_row();
    bad.id = "1:2".to_string();
    assert!(!store.restore_row(bad));
    assert_eq!(store.len(), 2);
}

fn event_row() -> LogEntry {
    LogEntry {
        id: "x".to_string(),
        ts: 0,
        deployment: "d".to_string(),
        request_id: None,
        execution_id: None,
        topic: None,
        level: None,
        function_path: None,
        function_name: None,
        udf_type: None,
        success: None,
        duration_ms: None,
        message: "m".to_string(),
        json_blob: "{}".to_string(),
        created_at: 0,
    }
}
