use agent_slint::agent::{
    millis_or_zero,
    base_url, bearer, rpc_path, created_session_name, display_name, health_error, mailbox_label, mailbox_page, now_ms,
    provider_row, source_label, status_error, Identity, MailboxItem,
};

#[test]
fn mailbox_label_interrupt() {
    assert_eq!(mailbox_label("interrupt", "user"), "Interrupt");
}

#[test]
fn mailbox_label_non_trigger_is_event() {
    assert_eq!(mailbox_label("note", "session:abc"), "Event");
    assert_eq!(mailbox_label("", ""), "Event");
}

#[test]
fn mailbox_label_trigger_sources() {
    assert_eq!(mailbox_label("trigger", "user"), "Message");
    assert_eq!(mailbox_label("trigger", "session:abc"), "From session · abc");
    assert_eq!(mailbox_label("trigger", "system:cron"), "From system · cron");
    assert_eq!(mailbox_label("trigger", "webhook"), "Message");
    assert_eq!(mailbox_label("trigger", "session:"), "From session · ");
}

#[test]
fn source_label_cases() {
    assert_eq!(source_label("assistant", "session:main"), "[main]");
    assert_eq!(source_label("assistant", "system:boot"), "[system:boot]");
    assert_eq!(source_label("assistant", ""), "ASSISTANT");
    assert_eq!(source_label("user", "web"), "USER");
}

#[test]
fn source_label_uppercases_unicode() {
    assert_eq!(source_label("straße", ""), "STRASSE");
}

#[test]
fn status_error_only_when_refused() {
    assert_eq!(status_error("get_config", 200), None);
    assert_eq!(status_error("get_config", 299), None);
    assert_eq!(status_error("get_config", 300), Some("get_config: HTTP 300".to_string()));
    assert_eq!(status_error("list_tools", 404), Some("list_tools: HTTP 404".to_string()));
    assert_eq!(status_error("fork", 65535), Some("fork: HTTP 65535".to_string()));
}

#[test]
fn health_error_includes_body() {
    assert_eq!(health_error(204, b"ok"), None);
    assert_eq!(health_error(401, b"denied"), Some("health: HTTP 401 denied".to_string()));
    assert_eq!(health_error(500, b"bad \xff"), Some("health: HTTP 500 bad \u{fffd}".to_string()));
}

#[test]
fn created_session_name_rejects_empty() {
    assert_eq!(created_session_name("easy-1".to_string()), Ok("easy-1".to_string()));
    assert_eq!(
        created_session_name(String::new()),
        Err("create_session: empty name".to_string())
    );
}

fn identity(tenant: &str, name: &str) -> Identity {
    Identity { tenant: tenant.to_string(), tenant_name: name.to_string(), role: "admin".to_string() }
}

#[test]
fn display_name_prefers_tenant_name() {
    assert_eq!(display_name(&Ok(identity("t-1", "Acme"))), "Acme");
    assert_eq!(display_name(&Ok(identity("t-1", ""))), "t-1");
    assert_eq!(display_name(&Err("down".to_string())), "");
}

#[test]
fn provider_rows() {
    assert_eq!(provider_row("openai", "chat"), "openai · chat");
}

#[test]
fn mailbox_page_rows() {
    let items = vec![
        MailboxItem {
            msg_type: "trigger".to_string(),
            source: "user".to_string(),
            status: "done".to_string(),
        },
        MailboxItem {
            msg_type: "interrupt".to_string(),
            source: "".to_string(),
            status: "pending".to_string(),
        },
    ];
    let page = mailbox_page(&items, true);
    assert!(page.has_more);
    assert_eq!(page.entries, vec!["Message · done".to_string(), "Interrupt · pending".to_string()]);
    let empty = mailbox_page(&Vec::new(), false);
    assert!(!empty.has_more);
    assert!(empty.entries.is_empty());
}

#[test]
fn clock_is_after_epoch() {
    assert!(now_ms() > 1_600_000_000_000);
}

#[test]
fn base_url_drops_trailing_slashes() {
    assert_eq!(base_url("http://h:8080//"), "http://h:8080");
    assert_eq!(base_url("http://h"), "http://h");
    assert_eq!(base_url("///"), "");
}

#[test]
fn bearer_and_paths() {
    assert_eq!(bearer("SECRET-REDACTED"), "Bearer SECRET-REDACTED");
    assert_eq!(rpc_path("Health"), "/agent.v1.AgentService/Health");
}

#[test]
fn clock_reading_or_zero() {
    assert_eq!(millis_or_zero(Some(1790071200000)), 1790071200000);
    assert_eq!(millis_or_zero(None), 0);
}
