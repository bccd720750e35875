use sani::tracker::{parse_position_response, TrackerState};

#[test]
fn parse_position_reads_whole_seconds() {
    assert_eq!(
        parse_position_response("{\"data\":123.456789,\"request_id\":0,\"error\":\"success\"}"),
        Some(123)
    );
    assert_eq!(parse_position_response("{\"data\":0.25,\"error\":\"success\"}"), Some(0));
    assert_eq!(parse_position_response("{\"data\":7}"), Some(7));
}

#[test]
fn parse_position_rejects_lines_without_a_number() {
    assert_eq!(parse_position_response(""), None);
    assert_eq!(parse_position_response("{\"error\":\"property unavailable\"}"), None);
    assert_eq!(parse_position_response("{\"data\":null}"), None);
    assert_eq!(parse_position_response("{\"data\":\"x\"}"), None);
}

#[test]
fn observe_keeps_the_last_parseable_position() {
    let mut state = TrackerState::new();
    assert_eq!(state.last_position, 0);

    state.observe("{\"data\":41.9,\"error\":\"success\"}");
    assert_eq!(state.last_position, 41);

    // A failed poll keeps the remembered position.
    state.observe("connection refused");
    assert_eq!(state.last_position, 41);

    state.observe("{\"data\":52.0,\"error\":\"success\"}");
    assert_eq!(state.last_position, 52);
}
