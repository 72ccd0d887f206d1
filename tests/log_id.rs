use log_store::log_id::compute_log_id;

#[test]
fn test_compute_log_id_stable() {
    let id1 = compute_log_id(
        1234567890,
        "test-deployment",
        Some("req-123"),
        Some("api/myFunction"),
        Some("INFO"),
        "Test message",
    );

    let id2 = compute_log_id(
        1234567890,
        "test-deployment",
        Some("req-123"),
        Some("api/myFunction"),
        Some("INFO"),
        "Test message",
    );

    assert_eq!(id1, id2, "IDs should be stable for same input");
}

#[test]
fn test_compute_log_id_different() {
    let id1 = compute_log_id(
        1234567890,
        "test-deployment",
        Some("req-123"),
        Some("api/myFunction"),
        Some("INFO"),
        "Test message 1",
    );

    let id2 = compute_log_id(
        1234567890,
        "test-deployment",
        Some("req-123"),
        Some("api/myFunction"),
        Some("INFO"),
        "Test message 2",
    );

    assert_ne!(id1, id2, "IDs should differ for different messages");
}

#[test]
fn log_id_is_sha256_of_fields_in_hex() {
    let id = compute_log_id(
        1234567890,
        "test-deployment",
        Some("req-123"),
        Some("api/myFunction"),
        Some("INFO"),
        "Test message",
    );
    assert_eq!(id, "639f8e01c30eb38c3ae8e0de5ca74ed02bfbea081615adf2d8d1131807387546");
}

#[test]
fn log_id_skips_absent_fields_and_encodes_negative_ts() {
    let id = compute_log_id(-5, "d", None, None, None, "m");
    assert_eq!(id, "9aa161513cd71c40c6c01b7b7d2d71142625afa9c9006b64c5b2b5e973602391");
    assert_eq!(id.len(), 64);
}

#[test]
fn log_id_absent_field_is_not_a_placeholder() {
    let with_empty = compute_log_id(7, "d", Some(""), None, None, "m");
    let without = compute_log_id(7, "d", None, None, None, "m");
    assert_eq!(with_empty, without);
    let moved = compute_log_id(7, "d", Some("x"), None, None, "m");
    let moved_too = compute_log_id(7, "d", None, Some("x"), None, "m");
    assert_eq!(moved, moved_too);
}
