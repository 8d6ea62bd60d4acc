use oma_browse::control::Failure;
use oma_browse::mcp::{answer, is_message, next, unwrap_event, Next};

#[test]
fn an_event_stream_gives_up_its_json() {
    let sse = "data: {\"jsonrpc\":\"2.0\",\"id\":1,\"result\":{}}\n\n";
    assert_eq!(unwrap_event(sse).as_deref(), Some("{\"jsonrpc\":\"2.0\",\"id\":1,\"result\":{}}"));
}

#[test]
fn a_plain_json_answer_passes_through() {
    assert_eq!(unwrap_event("{\"jsonrpc\":\"2.0\"}").as_deref(), Some("{\"jsonrpc\":\"2.0\"}"));
}

#[test]
fn an_empty_answer_is_a_notification_and_says_nothing() {
    // A blank line back would look like a reply to a client counting them.
    assert_eq!(unwrap_event(""), None);
    assert_eq!(unwrap_event("\n\n"), None);
}

#[test]
fn an_event_in_two_parts_is_put_together() {
    assert_eq!(unwrap_event("event: message\ndata: a\ndata: b\n").as_deref(), Some("a\nb"));
    assert!(is_message(" x "));
    assert!(!is_message(" \t"));
}

#[test]
fn what_a_client_hears_next() {
    assert!(matches!(answer(true, "200 OK", "{}"), Ok(Some(line)) if line == "{}"));
    assert!(matches!(answer(false, "500 No", "why"), Err(Failure::Protocol(m)) if m == "500 No: why"));
    assert!(matches!(next(Ok(Some("x".to_string()))), Next::Write(line) if line == "x"));
    assert!(matches!(next(Ok(None)), Next::Silent));
    assert!(matches!(next(Err(Failure::NoWindow)), Next::End));
    assert!(matches!(next(Err(Failure::Protocol("no".to_string()))), Next::Fail(_)));
}
