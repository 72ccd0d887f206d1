use log_store::models::IngestLogEntry;
use log_store::normalize::{extract_message, infer_level, infer_topic, join_lines, topic_from_lowered};

fn event() -> IngestLogEntry {
    IngestLogEntry {
        id: "e".to_string(),
        timestamp: 1000,
        function_identifier: None,
        function_name: None,
        udf_type: None,
        request_id: None,
        execution_id: None,
        success: None,
        duration_ms: None,
        error: None,
        log_lines: None,
        raw: None,
    }
}

#[test]
fn message_prefers_error() {
    let mut e = event();
    e.error = Some("boom".to_string());
    e.log_lines = Some(vec!["a".to_string()]);
    e.function_name = Some("f".to_string());
    assert_eq!(extract_message(&e), "Error: boom");
}

#[test]
fn message_joins_log_lines() {
    let mut e = event();
    e.log_lines = Some(vec!["a".to_string(), "b".to_string(), "c".to_string()]);
    assert_eq!(extract_message(&e), "a | b | c");
}

#[test]
fn message_skips_empty_log_lines() {
    let mut e = event();
    e.log_lines = Some(vec![]);
    e.function_name = Some("run".to_string());
    assert_eq!(extract_message(&e), "Function 'run' executed");
    e.success = Some(false);
    assert_eq!(extract_message(&e), "Function 'run' failed");
    e.success = Some(true);
    assert_eq!(extract_message(&e), "Function 'run' executed");
}

#[test]
fn message_fallback() {
    assert_eq!(extract_message(&event()), "Log entry");
}

#[test]
fn join_lines_single_and_empty() {
    assert_eq!(join_lines(&vec!["only".to_string()], " | "), "only");
    assert_eq!(join_lines(&vec![], " | "), "");
}

#[test]
fn level_rules() {
    let mut e = event();
    assert_eq!(infer_level(&e), None);
    e.success = Some(true);
    assert_eq!(infer_level(&e), Some("INFO".to_string()));
    e.success = Some(false);
    assert_eq!(infer_level(&e), Some("ERROR".to_string()));
    e.success = Some(true);
    e.error = Some("x".to_string());
    assert_eq!(infer_level(&e), Some("ERROR".to_string()));
}

#[test]
fn topic_rules() {
    assert_eq!(infer_topic(None), None);
    assert_eq!(infer_topic(Some("query")), Some("function".to_string()));
    assert_eq!(infer_topic(Some("Mutation")), Some("function".to_string()));
    assert_eq!(infer_topic(Some("ACTION")), Some("function".to_string()));
    assert_eq!(infer_topic(Some("HttpAction")), Some("function".to_string()));
    assert_eq!(infer_topic(Some("Cron")), Some("Cron".to_string()));
}

#[test]
fn topic_from_lowered_form() {
    assert_eq!(topic_from_lowered("Query", &"query".to_string()), "function");
    assert_eq!(topic_from_lowered("Query", &"Query".to_string()), "Query");
    assert_eq!(topic_from_lowered("http", &"http".to_string()), "http");
}
