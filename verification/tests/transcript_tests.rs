use agent_slint::text::{trim, text_eq, starts_with, strip_prefix, push_decimal};
use agent_slint::transcript::{append_delta, begin_turn, event_line, new_session_name};

fn params(pairs: &[(&str, &str)]) -> Vec<(String, String)> {
    pairs.iter().map(|(k, v)| (k.to_string(), v.to_string())).collect()
}

#[test]
fn text_delta_gives_text() {
    assert_eq!(event_line("text-delta", &params(&[("text", "Hel")])), Some("Hel".to_string()));
    assert_eq!(event_line("text-delta", &params(&[])), None);
    assert_eq!(event_line("text-delta", &params(&[("text", "")])), None);
}

#[test]
fn reasoning_delta_is_tagged() {
    assert_eq!(
        event_line("reasoning-delta", &params(&[("text", "hmm")])),
        Some("[reasoning] hmm".to_string())
    );
    assert_eq!(event_line("reasoning-delta", &params(&[])), Some("[reasoning] ".to_string()));
}

#[test]
fn tool_call_names_the_tool() {
    assert_eq!(
        event_line("tool-call", &params(&[("name", "b"), ("toolName", "a")])),
        Some("\n[tool: a]\n".to_string())
    );
    assert_eq!(event_line("tool-call", &params(&[("name", "b")])), Some("\n[tool: b]\n".to_string()));
    assert_eq!(event_line("tool-call", &params(&[])), Some("\n[tool: tool]\n".to_string()));
}

#[test]
fn other_events_add_nothing() {
    assert_eq!(event_line("end", &params(&[("text", "x")])), None);
    assert_eq!(event_line("", &params(&[])), None);
}

#[test]
fn deltas_append_to_last_line() {
    let mut lines = vec!["You: hi".to_string(), "Agent: ".to_string()];
    append_delta(&mut lines, "Hel");
    append_delta(&mut lines, "lo");
    assert_eq!(lines, vec!["You: hi", "Agent: Hello"]);
}

#[test]
fn delta_on_empty_transcript_starts_a_line() {
    let mut lines: Vec<String> = Vec::new();
    append_delta(&mut lines, "x");
    assert_eq!(lines, vec!["x"]);
}

#[test]
fn deltas_concatenate() {
    let mut a = vec!["Agent: ".to_string()];
    append_delta(&mut a, "ab");
    append_delta(&mut a, "cd");
    let mut b = vec!["Agent: ".to_string()];
    append_delta(&mut b, "abcd");
    assert_eq!(a, b);
}

#[test]
fn begin_turn_pushes_prompt_and_reply_lines() {
    let mut lines = vec!["old".to_string()];
    assert_eq!(begin_turn(&mut lines, "s1", "  hello \n"), Some("hello".to_string()));
    assert_eq!(lines, vec!["old", "You: hello", "Agent: "]);
}

#[test]
fn begin_turn_needs_prompt_and_session() {
    let mut lines = vec!["old".to_string()];
    assert_eq!(begin_turn(&mut lines, "s1", " \t "), None);
    assert_eq!(begin_turn(&mut lines, "", "hello"), None);
    assert_eq!(lines, vec!["old"]);
}

#[test]
fn session_names() {
    assert_eq!(new_session_name(0), "easy-0");
    assert_eq!(new_session_name(1790071200000), "easy-1790071200000");
    assert_eq!(new_session_name(u128::MAX), format!("easy-{}", u128::MAX));
}

#[test]
fn text_helpers() {
    assert_eq!(trim("\u{3000} a b \u{2028}"), "a b");
    assert_eq!(trim("   "), "");
    assert!(text_eq("chat", "chat"));
    assert!(!text_eq("chat", "chats"));
    assert!(starts_with("session:x", "session:"));
    assert!(!starts_with("sess", "session:"));
    assert_eq!(strip_prefix("system:a", "system:"), Some("a".to_string()));
    assert_eq!(strip_prefix("x", "system:"), None);
    let mut s = String::from("n=");
    push_decimal(&mut s, 1205);
    assert_eq!(s, "n=1205");
}
