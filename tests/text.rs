use log_store::query::{format_cursor, parse_cursor};
use log_store::models::LogEntry;
use log_store::text::{i64_numeral, parse_i32, parse_i64, str_less, string_from_chars};
use log_store::tokens::{fold_text, sanitize_query, tokenize, words_of};

#[test]
fn numerals() {
    assert_eq!(i64_numeral(0), "0");
    assert_eq!(i64_numeral(1234567890), "1234567890");
    assert_eq!(i64_numeral(-42), "-42");
    assert_eq!(i64_numeral(i64::MIN), "-9223372036854775808");
    assert_eq!(i64_numeral(i64::MAX), "9223372036854775807");
}

#[test]
fn parsing_numerals() {
    assert_eq!(parse_i64("30"), Some(30));
    assert_eq!(parse_i64("+7"), Some(7));
    assert_eq!(parse_i64("-9223372036854775808"), Some(i64::MIN));
    assert_eq!(parse_i64("9223372036854775807"), Some(i64::MAX));
    assert_eq!(parse_i64("9223372036854775808"), None);
    assert_eq!(parse_i64("-9223372036854775809"), None);
    assert_eq!(parse_i64(""), None);
    assert_eq!(parse_i64("-"), None);
    assert_eq!(parse_i64("1a"), None);
    assert_eq!(parse_i64(" 1"), None);
    assert_eq!(parse_i32("2147483647"), Some(2147483647));
    assert_eq!(parse_i32("2147483648"), None);
    assert_eq!(parse_i32("abc"), None);
}

#[test]
fn ordering_of_ids() {
    assert!(str_less(&"abc".to_string(), &"abd".to_string()));
    assert!(str_less(&"ab".to_string(), &"abc".to_string()));
    assert!(!str_less(&"abc".to_string(), &"abc".to_string()));
    assert!(!str_less(&"b".to_string(), &"abc".to_string()));
}

#[test]
fn chars_round_trip() {
    assert_eq!(string_from_chars(&vec!['h', 'é', '!']), "hé!");
}

#[test]
fn tokens_split_on_punctuation() {
    assert_eq!(tokenize("Boom failed: api/run_fn"), vec!["Boom", "failed", "api", "run", "fn"]);
    assert_eq!(tokenize("  "), Vec::<String>::new());
    assert_eq!(tokenize("café-au"), vec!["café", "au"]);
    assert_eq!(tokenize("a\u{2014}b\u{00a0}c"), vec!["a", "b", "c"]);
}

#[test]
fn search_words_fold_and_stem() {
    assert_eq!(fold_text("Crème BRÛLÉE"), "creme brulee");
    assert_eq!(words_of("Failing jobs, Cafés"), vec!["fail", "job", "cafe"]);
    assert_eq!(words_of("!!"), Vec::<String>::new());
}

#[test]
fn query_cleaning() {
    assert_eq!(sanitize_query("  say \"hi\"  "), "say \"\"hi\"\"");
    assert_eq!(sanitize_query(" \t\n"), "");
    assert_eq!(sanitize_query("x"), "x");
}

fn entry(ts: i64, id: &str) -> LogEntry {
    LogEntry {
        id: id.to_string(),
        ts,
        deployment: "d".to_string(),
        request_id: None,
        execution_id: None,
        topic: None,
        level: None,
        function_path: None,
        function_name: None,
        udf_type: None,
        success: None,
        duration_ms: None,
        message: "m".to_string(),
        json_blob: "{}".to_string(),
        created_at: 0,
    }
}

#[test]
fn cursors() {
    let c = format_cursor(&entry(-17, "ab12"));
    assert_eq!(c, "-17:ab12");
    assert_eq!(parse_cursor(&c), Some((-17, "ab12".to_string())));
    assert_eq!(parse_cursor(&"x:ab".to_string()), None);
    assert_eq!(parse_cursor(&"1:a:b".to_string()), None);
    assert_eq!(parse_cursor(&"12".to_string()), None);
    assert_eq!(parse_cursor(&"5:".to_string()), Some((5, String::new())));
}
