use agent_slint::messages::{format_part, render_messages, speaker, MessagePart, StoredMessage};

fn part(t: &str, data: &str) -> MessagePart {
    MessagePart { part_type: t.to_string(), data: data.to_string() }
}

fn message(source: &str, role: &str, parts: Vec<MessagePart>) -> StoredMessage {
    StoredMessage { source: source.to_string(), role: role.to_string(), parts }
}

#[test]
fn speakers() {
    assert_eq!(speaker("session:helper", "assistant"), "[helper]");
    assert_eq!(speaker("system:cron", "user"), "[system:cron]");
    assert_eq!(speaker("", "user"), "You");
    assert_eq!(speaker("web", "assistant"), "Agent");
    assert_eq!(speaker("", "tool"), "tool");
}

#[test]
fn renders_text_reasoning_and_tools() {
    let msgs = vec![
        message("", "user", vec![part("text", r#"{"text":"hi there"}"#)]),
        message(
            "",
            "assistant",
            vec![
                part("reasoning", r#"{"text":"thinking"}"#),
                part("tool", r#"{"name":"search"}"#),
                part("text", r#"{"text":"done"}"#),
            ],
        ),
    ];
    assert_eq!(
        render_messages(&msgs),
        vec!["You: hi there", "Agent: thinking", "[tool: search]", "Agent: done"]
    );
}

#[test]
fn skips_blank_missing_and_invalid_text() {
    let msgs = vec![message(
        "",
        "assistant",
        vec![
            part("text", r#"{"text":"   \n\t"}"#),
            part("text", r#"{"other":"x"}"#),
            part("text", "not json"),
            part("text", r#"{"text":42}"#),
            part("image", r#"{"text":"ignored"}"#),
        ],
    )];
    assert!(render_messages(&msgs).is_empty());
}

#[test]
fn tool_without_name_is_called_tool() {
    let msgs = vec![message("", "assistant", vec![part("tool", "{}"), part("tool", "[1,2]")])];
    assert_eq!(render_messages(&msgs), vec!["[tool: tool]", "[tool: tool]"]);
}

#[test]
fn session_and_system_sources_label_lines() {
    let msgs = vec![
        message("session:planner", "assistant", vec![part("text", r#"{"text":"plan"}"#)]),
        message("system:notice", "user", vec![part("text", r#"{"text":"maintenance"}"#)]),
    ];
    assert_eq!(render_messages(&msgs), vec!["[planner]: plan", "[system:notice]: maintenance"]);
}

#[test]
fn format_part_from_members() {
    let s = |x: &str| Some(x.to_string());
    assert_eq!(format_part("You", "text", s("hi"), None), s("You: hi"));
    assert_eq!(format_part("Agent", "reasoning", s("why"), s("n")), s("Agent: why"));
    assert_eq!(format_part("Agent", "text", s(" \n "), None), None);
    assert_eq!(format_part("Agent", "text", None, s("x")), None);
    assert_eq!(format_part("Agent", "tool", s("t"), s("grep")), s("[tool: grep]"));
    assert_eq!(format_part("Agent", "tool", None, None), s("[tool: tool]"));
    assert_eq!(format_part("Agent", "image", s("t"), s("n")), None);
}
