use agent_slint::navigation::{
    config_item_page, root_key, view_for, NavStore, CONFIG_SUB_IDS, SESSION_OVERLAYS, SIDER_TABS,
};

#[test]
fn new_store_starts_on_session_list() {
    let nav = NavStore::new();
    assert_eq!(nav.tab(), "chat");
    assert_eq!(nav.top(), "chat_list");
    assert_eq!(nav.active_session(), "");
    assert_eq!(view_for(&nav.top()), "sessions_view");
}

#[test]
fn default_equals_new() {
    let nav = NavStore::default();
    assert_eq!(nav.top(), "chat_list");
}

#[test]
fn push_then_top() {
    let mut nav = NavStore::new();
    nav.push("chat_session");
    assert_eq!(nav.top(), "chat_session");
    nav.push("chat_overlay");
    assert_eq!(nav.top(), "chat_overlay");
}

#[test]
fn pop_undoes_push() {
    let mut nav = NavStore::new();
    nav.push("chat_session");
    nav.pop();
    assert_eq!(nav.top(), "chat_list");
}

#[test]
fn pop_keeps_root_page() {
    let mut nav = NavStore::new();
    nav.pop();
    nav.pop();
    assert_eq!(nav.top(), "chat_list");
    nav.set_tab("config");
    nav.pop();
    assert_eq!(nav.top(), "config_root");
}

#[test]
fn tabs_keep_their_own_stacks() {
    let mut nav = NavStore::new();
    nav.push("chat_session");
    nav.set_tab("config");
    assert_eq!(nav.top(), "config_root");
    nav.push("providers_list");
    assert_eq!(nav.top(), "providers_list");
    nav.set_tab("chat");
    assert_eq!(nav.top(), "chat_session");
    nav.set_tab("config");
    nav.pop();
    assert_eq!(nav.top(), "config_root");
}

#[test]
fn unknown_tab_uses_config_stack() {
    let mut nav = NavStore::new();
    nav.set_tab("elsewhere");
    assert_eq!(nav.top(), "config_root");
    nav.push("x");
    nav.set_tab("config");
    assert_eq!(nav.top(), "x");
}

#[test]
fn view_for_maps_every_key() {
    assert_eq!(view_for("chat_list"), "sessions_view");
    assert_eq!(view_for("chat_session"), "chat_view");
    assert_eq!(view_for("chat_overlay"), "mailbox_view");
    assert_eq!(view_for("config_root"), "config_view");
    assert_eq!(view_for("providers_list"), "providers_view");
    assert_eq!(view_for("preset_form_new"), "preset_form_view");
    assert_eq!(view_for("provider_form"), "provider_form_view");
    assert_eq!(view_for("config_sub_tools"), "config_view");
    assert_eq!(view_for(""), "config_view");
}

#[test]
fn root_key_per_tab() {
    assert_eq!(root_key("chat"), "chat_list");
    assert_eq!(root_key("config"), "config_root");
    assert_eq!(root_key("Chat"), "config_root");
}

#[test]
fn open_session_sets_title() {
    let mut nav = NavStore::new();
    assert_eq!(nav.chat_title(), "");
    nav.open_session("s-42");
    assert_eq!(nav.active_session(), "s-42");
    assert_eq!(nav.top(), "chat_session");
    assert_eq!(nav.chat_title(), "s-42");
    nav.pop();
    assert_eq!(nav.chat_title(), "");
}

#[test]
fn config_items_open_their_pages() {
    assert_eq!(config_item_page("presets"), "preset_form_new");
    assert_eq!(config_item_page("tools"), "config_sub_tools");
    assert_eq!(config_item_page("appearance"), "config_sub_appearance");
}

#[test]
fn page_contract_constants() {
    assert_eq!(SIDER_TABS, ["chat", "config"]);
    assert_eq!(CONFIG_SUB_IDS, ["appearance", "backends", "presets", "tools"]);
    assert_eq!(SESSION_OVERLAYS, ["mailbox"]);
}

#[test]
fn set_tab_keeps_both_stacks() {
    let mut n = NavStore::new();
    n.set_tab("config");
    assert_eq!(n.tab(), "config");
    assert_eq!(n.top(), "config_root");
    let mut n = NavStore::new();
    n.push("chat_session");
    n.push("chat_overlay");
    n.set_tab("config");
    n.push("providers_list");
    n.set_tab("chat");
    n.pop();
    assert_eq!(n.top(), "chat_session");
    n.set_tab("config");
    assert_eq!(n.top(), "providers_list");
}

#[test]
fn set_active_session_leaves_pages() {
    let mut n = NavStore::new();
    n.set_active_session("s-1");
    assert_eq!(n.active_session(), "s-1");
    assert_eq!(n.top(), "chat_list");
    assert_eq!(n.chat_title(), "");
}

#[test]
fn enough_pops_reach_the_root() {
    let mut n = NavStore::new();
    n.set_tab("config");
    n.push("a");
    n.push("b");
    n.push("c");
    n.pop();
    n.pop();
    n.pop();
    assert_eq!(n.top(), "config_root");
    n.pop();
    assert_eq!(n.top(), "config_root");
}

#[test]
fn push_then_pop_restores_top() {
    let mut n = NavStore::new();
    n.push("chat_session");
    let before = n.top();
    n.push("chat_overlay");
    n.pop();
    assert_eq!(n.top(), before);
}
