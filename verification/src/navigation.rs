//! The navigation model: two side tabs, each with its own stack of pages.
use vstd::prelude::*;

use crate::text::text_eq;

verus! {

/// The side tabs.
pub const SIDER_TABS: [&'static str; 2] = ["chat", "config"];

/// The config drill-in sub-pages.
pub const CONFIG_SUB_IDS: [&'static str; 4] = ["appearance", "backends", "presets", "tools"];

/// The chat-tab overlays.
pub const SESSION_OVERLAYS: [&'static str; 1] = ["mailbox"];

/// The view that renders each static page key; unknown keys fall back to the
/// config view.
pub open spec fn view_key(key: Seq<char>) -> Seq<char> {
    if key == "chat_list"@ {
        "sessions_view"@
    } else if key == "chat_session"@ {
        "chat_view"@
    } else if key == "chat_overlay"@ {
        "mailbox_view"@
    } else if key == "config_root"@ {
        "config_view"@
    } else if key == "providers_list"@ {
        "providers_view"@
    } else if key == "preset_form_new"@ {
        "preset_form_view"@
    } else if key == "provider_form"@ {
        "provider_form_view"@
    } else {
        "config_view"@
    }
}

/// The root page of a tab: the session list on `chat`, the config root on
/// any other tab.
pub open spec fn tab_root(tab: Seq<char>) -> Seq<char> {
    if tab == "chat"@ {
        "chat_list"@
    } else {
        "config_root"@
    }
}

/// Each static page key -> the view that dispatches it.
pub fn view_for(key: &str) -> (r: &'static str)
    ensures
        r@ == view_key(key@),
{
    if text_eq(key, "chat_list") {
        "sessions_view"
    } else if text_eq(key, "chat_session") {
        "chat_view"
    } else if text_eq(key, "chat_overlay") {
        "mailbox_view"
    } else if text_eq(key, "config_root") {
        "config_view"
    } else if text_eq(key, "providers_list") {
        "providers_view"
    } else if text_eq(key, "preset_form_new") {
        "preset_form_view"
    } else if text_eq(key, "provider_form") {
        "provider_form_view"
    } else {
        "config_view"
    }
}

/// The root page key of `tab`.
pub fn root_key(tab: &str) -> (r: &'static str)
    ensures
        r@ == tab_root(tab@),
{
    if text_eq(tab, "chat") {
        "chat_list"
    } else {
        "config_root"
    }
}

/// The abstract state of a `NavStore`: both page stacks, the selected tab
/// and the open session.
pub struct NavModel {
    pub chat: Seq<Seq<char>>,
    pub config: Seq<Seq<char>>,
    pub tab: Seq<char>,
    pub active_session_id: Seq<char>,
}

impl NavModel {
    /// Whether the chat tab is selected; every other tab shows the config stack.
    pub open spec fn on_chat(self) -> bool {
        self.tab == "chat"@
    }

    /// The page stack of the selected tab.
    pub open spec fn stack(self) -> Seq<Seq<char>> {
        if self.on_chat() {
            self.chat
        } else {
            self.config
        }
    }

    /// The model with the selected tab's stack replaced by `s`.
    pub open spec fn with_stack(self, s: Seq<Seq<char>>) -> NavModel {
        if self.on_chat() {
            NavModel { chat: s, ..self }
        } else {
            NavModel { config: s, ..self }
        }
    }

    /// The page on top of the selected tab's stack, or the tab's root page
    /// when that stack is empty.
    pub open spec fn top(self) -> Seq<char> {
        if self.stack().len() == 0 {
            tab_root(self.tab)
        } else {
            self.stack().last()
        }
    }

    /// `key` pushed onto the selected tab's stack.
    pub open spec fn push(self, key: Seq<char>) -> NavModel {
        self.with_stack(self.stack().push(key))
    }

    /// The selected tab's top page removed, unless it is the only page left.
    pub open spec fn pop(self) -> NavModel {
        if self.stack().len() > 1 {
            self.with_stack(self.stack().drop_last())
        } else {
            self
        }
    }

    /// Neither stack is ever empty, and each keeps its tab's root page at the
    /// bottom.
    pub open spec fn wf(self) -> bool {
        &&& self.chat.len() >= 1
        &&& self.config.len() >= 1
        &&& self.chat[0] == "chat_list"@
        &&& self.config[0] == "config_root"@
    }

    /// The chat header's title: the open session while its chat page is on top.
    pub open spec fn chat_title(self) -> Seq<char> {
        if self.top() == "chat_session"@ {
            self.active_session_id
        } else {
            Seq::empty()
        }
    }

    /// The state a new store starts in.
    pub open spec fn initial() -> NavModel {
        NavModel {
            chat: seq!["chat_list"@],
            config: seq!["config_root"@],
            tab: "chat"@,
            active_session_id: Seq::empty(),
        }
    }
}

pub open spec fn texts(v: Seq<String>) -> Seq<Seq<char>> {
    v.map_values(|s: String| s@)
}

/// Per-tab page stacks with push/pop semantics.
pub struct NavStore {
    chat: Vec<String>,
    config: Vec<String>,
    tab: String,
    active_session_id: String,
}

impl View for NavStore {
    type V = NavModel;

    closed spec fn view(&self) -> NavModel {
        NavModel {
            chat: texts(self.chat@),
            config: texts(self.config@),
            tab: self.tab@,
            active_session_id: self.active_session_id@,
        }
    }
}

impl NavStore {
    /// Every store's stacks are non-empty with their roots at the bottom.
    #[verifier::type_invariant]
    spec fn well_formed(self) -> bool {
        self@.wf()
    }
}

impl Default for NavStore {
    fn default() -> (r: Self)
        ensures
            r@ == NavModel::initial(),
    {
        Self::new()
    }
}

impl NavStore {
    /// Both tabs at their root page, the chat tab selected, no session open.
    pub fn new() -> (r: Self)
        ensures
            r@ == NavModel::initial(),
    {
        let mut chat: Vec<String> = Vec::new();
        chat.push("chat_list".to_string());
        let mut config: Vec<String> = Vec::new();
        config.push("config_root".to_string());
        let r = NavStore {
            chat,
            config,
            tab: "chat".to_string(),
            active_session_id: String::new(),
        };
        assert(texts(r.chat@) =~= seq!["chat_list"@]);
        assert(texts(r.config@) =~= seq!["config_root"@]);
        r
    }

    /// Whether the chat tab is selected (its stack is the one that moves).
    fn chat_selected(&self) -> (r: bool)
        ensures
            r == self@.on_chat(),
    {
        text_eq(&self.tab, "chat")
    }

    /// The page on top of the selected tab's stack.
    pub fn top(&self) -> (r: String)
        ensures
            r@ == self@.top(),
            self@.wf(),
    {
        proof {
            use_type_invariant(self);
        }
        let s = if text_eq(&self.tab, "chat") {
            &self.chat
        } else {
            &self.config
        };
        if s.len() == 0 {
            root_key(&self.tab).to_string()
        } else {
            s[s.len() - 1].clone()
        }
    }

    /// Moves the store out of `self`, leaving a new store in its place.
    fn take(&mut self) -> (r: NavStore)
        ensures
            r == *old(self),
            final(self)@ == NavModel::initial(),
    {
        let mut held = NavStore::new();
        std::mem::swap(self, &mut held);
        held
    }

    /// Pushes `key` onto the selected tab's stack.
    pub fn push(&mut self, key: &str)
        ensures
            old(self)@.wf(),
            final(self)@ == old(self)@.push(key@),
    {
        let held = self.take();
        proof {
            use_type_invariant(&held);
        }
        let on_chat = held.chat_selected();
        let NavStore { mut chat, mut config, tab, active_session_id } = held;
        if on_chat {
            let ghost before = chat@;
            chat.push(key.to_string());
            assert(texts(chat@) =~= texts(before).push(key@));
        } else {
            let ghost before = config@;
            config.push(key.to_string());
            assert(texts(config@) =~= texts(before).push(key@));
        }
        *self = NavStore { chat, config, tab, active_session_id };
    }

    /// Leaves the top page of the selected tab; the last page always stays.
    pub fn pop(&mut self)
        ensures
            old(self)@.wf(),
            final(self)@ == old(self)@.pop(),
    {
        let held = self.take();
        proof {
            use_type_invariant(&held);
        }
        let on_chat = held.chat_selected();
        let NavStore { mut chat, mut config, tab, active_session_id } = held;
        if on_chat {
            if chat.len() > 1 {
                let ghost before = chat@;
                chat.pop();
                assert(texts(chat@) =~= texts(before).drop_last());
            }
        } else {
            if config.len() > 1 {
                let ghost before = config@;
                config.pop();
                assert(texts(config@) =~= texts(before).drop_last());
            }
        }
        *self = NavStore { chat, config, tab, active_session_id };
    }

    /// Opens the chat page of session `id` on the selected tab.
    pub fn open_session(&mut self, id: &str)
        ensures
            final(self)@ == (NavModel { active_session_id: id@, ..old(self)@ }).push(
                "chat_session"@,
            ),
    {
        proof {
            use_type_invariant(&*self);
        }
        self.active_session_id = id.to_string();
        self.push("chat_session");
    }

    /// The selected tab.
    pub fn tab(&self) -> (r: &str)
        ensures
            r@ == self@.tab,
            self@.wf(),
    {
        proof {
            use_type_invariant(self);
        }
        self.tab.as_str()
    }

    /// The open session's id.
    pub fn active_session(&self) -> (r: &str)
        ensures
            r@ == self@.active_session_id,
            self@.wf(),
    {
        proof {
            use_type_invariant(self);
        }
        self.active_session_id.as_str()
    }

    /// Selects tab `tab`; both page stacks stay as they are.
    pub fn set_tab(&mut self, tab: &str)
        ensures
            old(self)@.wf(),
            final(self)@ == (NavModel { tab: tab@, ..old(self)@ }),
    {
        proof {
            use_type_invariant(&*self);
        }
        self.tab = tab.to_string();
    }

    /// Records `id` as the open session; the pages stay as they are.
    pub fn set_active_session(&mut self, id: &str)
        ensures
            old(self)@.wf(),
            final(self)@ == (NavModel { active_session_id: id@, ..old(self)@ }),
    {
        proof {
            use_type_invariant(&*self);
        }
        self.active_session_id = id.to_string();
    }

    /// The title the chat header shows: the open session's id while its chat
    /// page is on top, otherwise nothing.
    pub fn chat_title(&self) -> (r: String)
        ensures
            r@ == self@.chat_title(),
    {
        let top = self.top();
        if text_eq(&top, "chat_session") {
            self.active_session_id.clone()
        } else {
            String::new()
        }
    }
}


/// The page key that a config sub-item opens: the preset form for `presets`,
/// `config_sub_<item>` for the others.
pub open spec fn config_item_key(item: Seq<char>) -> Seq<char> {
    if item == "presets"@ {
        "preset_form_new"@
    } else {
        "config_sub_"@ + item
    }
}

/// The page key to push when config sub-item `item` is picked.
pub fn config_item_page(item: &str) -> (r: String)
    ensures
        r@ == config_item_key(item@),
{
    if text_eq(item, "presets") {
        "preset_form_new".to_string()
    } else {
        "config_sub_".to_string().concat(item)
    }
}

/// A pushed page is the page on top.
pub proof fn law_push_then_top(m: NavModel, key: Seq<char>)
    ensures
        m.push(key).top() == key,
{
}

/// Leaving a page that was just pushed restores the whole state.
pub proof fn law_pop_undoes_push(m: NavModel, key: Seq<char>)
    requires
        m.wf(),
    ensures
        m.push(key).pop() == m,
{
    assert(m.stack().push(key).drop_last() =~= m.stack());
    if m.on_chat() {
        assert(m.push(key).pop() =~= m);
    } else {
        assert(m.push(key).pop() =~= m);
    }
}

/// Neither stack ever runs empty: pushing and popping keep both stacks
/// non-empty, the last page of a tab stays when popped, and the top of a
/// well-formed store is always a page of its stack.
pub proof fn law_stacks_never_empty(m: NavModel, key: Seq<char>)
    requires
        m.wf(),
    ensures
        m.push(key).wf(),
        m.pop().wf(),
        m.stack().len() == 1 ==> m.pop() == m,
        m.top() == m.stack().last(),
{
}

/// Push and pop act on the selected tab's stack alone: the other tab's stack,
/// the selected tab and the open session stay as they were.
pub proof fn law_only_selected_tab_moves(m: NavModel, key: Seq<char>)
    ensures
        m.on_chat() ==> m.push(key).config == m.config && m.pop().config == m.config,
        !m.on_chat() ==> m.push(key).chat == m.chat && m.pop().chat == m.chat,
        m.push(key).tab == m.tab && m.pop().tab == m.tab,
        m.push(key).active_session_id == m.active_session_id,
        m.pop().active_session_id == m.active_session_id,
{
}

/// Each tab keeps its own history: switching to another tab and back gives
/// the same top page, whatever was done on the other tab meanwhile.
pub proof fn law_tab_history_survives_switch(m: NavModel, other: Seq<char>, key: Seq<char>)
    requires
        m.on_chat(),
        other != "chat"@,
    ensures
        (NavModel { tab: m.tab, ..(NavModel { tab: other, ..m }).push(key) }).top() == m.top(),
        (NavModel { tab: m.tab, ..(NavModel { tab: other, ..m }).pop() }).top() == m.top(),
{
}

/// A new store is well formed and shows the session list on the chat tab.
pub proof fn law_initial_state()
    ensures
        NavModel::initial().wf(),
        NavModel::initial().top() == "chat_list"@,
        view_key(NavModel::initial().top()) == "sessions_view"@,
        (NavModel { tab: "config"@, ..NavModel::initial() }).top() == "config_root"@,
{
    reveal_strlit("chat");
    reveal_strlit("config");
    reveal_strlit("chat_list");
    assert("config"@.len() != "chat"@.len());
}

/// Opening a session shows its id as the chat title.
pub proof fn law_open_session_titles_chat(m: NavModel, id: Seq<char>)
    ensures
        (NavModel { active_session_id: id, ..m }).push("chat_session"@).chat_title() == id,
{
}


/// The model after `n` pops.
pub open spec fn popped_times(m: NavModel, n: nat) -> NavModel
    decreases n,
{
    if n == 0 {
        m
    } else {
        popped_times(m, (n - 1) as nat).pop()
    }
}

proof fn lemma_popped_times(m: NavModel, n: nat)
    requires
        m.wf(),
        n < m.stack().len(),
    ensures
        popped_times(m, n).wf(),
        popped_times(m, n).tab == m.tab,
        popped_times(m, n).stack() == m.stack().take(m.stack().len() - n),
    decreases n,
{
    if n > 0 {
        lemma_popped_times(m, (n - 1) as nat);
        let p = popped_times(m, (n - 1) as nat);
        assert(p.stack().drop_last() =~= m.stack().take(m.stack().len() - n));
    } else {
        assert(m.stack().take(m.stack().len() as int) =~= m.stack());
    }
}

/// Popping as many times as a tab has pages above its root leaves exactly the
/// root page, the page `root_key` names for that tab.
pub proof fn law_pops_reach_root(m: NavModel)
    requires
        m.wf(),
    ensures
        popped_times(m, (m.stack().len() - 1) as nat).stack().len() == 1,
        popped_times(m, (m.stack().len() - 1) as nat).top() == tab_root(m.tab),
{
    lemma_popped_times(m, (m.stack().len() - 1) as nat);
}


/// Every config sub-item opens a page of its own: `presets` opens the preset
/// form, any other item `config_sub_<item>`, so distinct items open distinct
/// pages.
pub proof fn law_config_item_pages(item: Seq<char>, other: Seq<char>)
    ensures
        item == "presets"@ ==> config_item_key(item) == "preset_form_new"@,
        item != "presets"@ ==> config_item_key(item) == "config_sub_"@ + item,
        config_item_key(item) == config_item_key(other) ==> item == other,
{
    reveal_strlit("preset_form_new");
    reveal_strlit("config_sub_");
    if item != "presets"@ && other != "presets"@ && config_item_key(item) == config_item_key(
        other,
    ) {
        assert(item =~= ("config_sub_"@ + item).skip(11));
        assert(other =~= ("config_sub_"@ + other).skip(11));
    }
    if item != "presets"@ && other == "presets"@ {
        assert(("config_sub_"@ + item)[0] == 'c');
        assert("preset_form_new"@[0] == 'p');
    }
    if item == "presets"@ && other != "presets"@ {
        assert(("config_sub_"@ + other)[0] == 'c');
        assert("preset_form_new"@[0] == 'p');
    }
}

/// The sub-items the config tab lists each open their own page: the preset
/// form for `presets`, `config_sub_<item>` for every other one.
pub proof fn law_listed_config_items_open_their_pages()
    ensures
        forall|i: int|
            0 <= i < CONFIG_SUB_IDS@.len() ==> config_item_key((#[trigger] CONFIG_SUB_IDS@[i])@)
                == (if CONFIG_SUB_IDS@[i]@ == "presets"@ {
                "preset_form_new"@
            } else {
                "config_sub_"@ + CONFIG_SUB_IDS@[i]@
            }),
{
}

} // verus!
