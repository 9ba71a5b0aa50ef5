use agent_slint::sessions::{order_sessions, session_recency, SessionTimes};

fn session(name: &str, last: &str, updated: &str, created: &str) -> SessionTimes {
    SessionTimes {
        name: name.to_string(),
        last_message_at: last.to_string(),
        updated_at: updated.to_string(),
        created_at: created.to_string(),
    }
}

#[test]
fn recency_prefers_last_message() {
    let s = session("a", "2025-01-01T00:00:00Z", "2024-01-01T00:00:00Z", "2023-01-01T00:00:00Z");
    assert_eq!(session_recency(&s), 1735689600000);
}

#[test]
fn recency_falls_back_past_empty_and_bad_fields() {
    let s = session("a", "", "not a time at all", "1970-01-01T00:00:01Z");
    assert_eq!(session_recency(&s), 1000);
    let u = session("b", "", "2025-01-01T00:00:00Z", "");
    assert_eq!(session_recency(&u), 1735689600000);
}

#[test]
fn recency_zero_when_nothing_parses() {
    let s = session("a", "", "", "");
    assert_eq!(session_recency(&s), 0);
}

#[test]
fn sessions_ordered_most_recent_first() {
    let list = vec![
        session("old", "2023-06-15T08:30:00Z", "", ""),
        session("new", "2026-09-22T10:00:00.000Z", "", ""),
        session("mid", "", "2025-01-01T00:00:00Z", ""),
    ];
    assert_eq!(order_sessions(&list), vec!["new", "mid", "old"]);
}

#[test]
fn equal_recency_keeps_input_order() {
    let list = vec![
        session("first", "", "", ""),
        session("top", "2024-01-01T00:00:00Z", "", ""),
        session("second", "", "", "x"),
        session("third", "", "", ""),
    ];
    assert_eq!(order_sessions(&list), vec!["top", "first", "second", "third"]);
}

#[test]
fn empty_session_list() {
    assert!(order_sessions(&Vec::new()).is_empty());
}
