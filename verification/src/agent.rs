//! What the agent facade computes around its calls: request paths and
//! headers, error texts for refused requests, the display name, provider rows,
//! mailbox labels and rows, message origin labels and the clock reading.
use vstd::prelude::*;

use crate::text::{chars_of, decimal, push_decimal, string_of, strip_prefix, text_eq};

verus! {

/// The Unicode upper-case mapping that `str::to_uppercase` applies.
pub uninterp spec fn upper_case(s: Seq<char>) -> Seq<char>;

/// `s` with the ASCII letters `a`..=`z` turned into `A`..=`Z`, every other
/// character kept.
pub open spec fn ascii_upper(s: Seq<char>) -> Seq<char> {
    s.map_values(|c: char| if 'a' <= c <= 'z' { ((c as u32) - 32) as char } else { c })
}

/// `str::to_uppercase`; its result is named `upper_case` of the argument. On
/// ASCII text the Unicode mapping raises `a`..=`z` to `A`..=`Z` and keeps every
/// other character, which the contract states.
#[verifier::external_body]
fn to_upper(s: &str) -> (r: String)
    ensures
        r@ == upper_case(s@),
        vstd::utf8::is_ascii_chars(s@) ==> r@ == ascii_upper(s@),
{
    s.to_uppercase()
}

/// What `String::from_utf8_lossy` reads from `bytes`: the text they encode,
/// with U+FFFD in place of each invalid sequence.
pub uninterp spec fn utf8_lossy(bytes: Seq<u8>) -> Seq<char>;

/// `String::from_utf8_lossy`, made an owned `String`; its result is named
/// `utf8_lossy` of the bytes, and on valid UTF-8 it is the text the bytes
/// encode, as the documentation states.
#[verifier::external_body]
fn lossy_text(bytes: &[u8]) -> (r: String)
    ensures
        r@ == utf8_lossy(bytes@),
        vstd::utf8::valid_utf8(bytes@) ==> r@ == vstd::utf8::decode_utf8(bytes@),
{
    String::from_utf8_lossy(bytes).into_owned()
}

/// A request answered with HTTP status `status` failed when it is 300 or more.
pub open spec fn is_refused(status: u16) -> bool {
    status >= 300
}

/// The error text of a refused request: `<op>: HTTP <status>`.
pub open spec fn refusal_text(op: Seq<char>, status: u16) -> Seq<char> {
    op + ": HTTP "@ + decimal(status as nat)
}

/// The error for a request `op` that came back with `status`, if it was refused.
pub fn status_error(op: &str, status: u16) -> (r: Option<String>)
    ensures
        match r {
            Some(e) => is_refused(status) && e@ == refusal_text(op@, status),
            None => !is_refused(status),
        },
{
    if status >= 300 {
        let mut e = op.to_string().concat(": HTTP ");
        push_decimal(&mut e, status as u128);
        Some(e)
    } else {
        None
    }
}

/// The error of a refused health check: `health: HTTP <status> <body>`, the
/// body's bytes read as UTF-8 text with invalid sequences replaced.
pub fn health_error(status: u16, body: &[u8]) -> (r: Option<String>)
    ensures
        match r {
            Some(e) => is_refused(status) && e@ == refusal_text("health"@, status) + " "@
                + utf8_lossy(body@),
            None => !is_refused(status),
        },
        r is Some && vstd::utf8::valid_utf8(body@) ==> r->0@ == refusal_text("health"@, status)
            + " "@ + vstd::utf8::decode_utf8(body@),
{
    match status_error("health", status) {
        Some(e) => {
            let text = lossy_text(body);
            Some(e.concat(" ").concat(text.as_str()))
        },
        None => None,
    }
}

/// The name a new session came back with; an empty name is an error.
pub fn created_session_name(name: String) -> (r: Result<String, String>)
    ensures
        match r {
            Ok(n) => name@.len() > 0 && n@ == name@,
            Err(e) => name@.len() == 0 && e@ == "create_session: empty name"@,
        },
{
    if name.as_str().is_empty() {
        Err("create_session: empty name".to_string())
    } else {
        Ok(name)
    }
}

/// What the identity call reports of the caller's tenant.
pub struct Identity {
    pub tenant: String,
    pub tenant_name: String,
    pub role: String,
}

/// The display name: the tenant's name when it has one, else the tenant id;
/// nothing when the identity could not be had.
pub open spec fn display_name_of(identity: Result<Identity, String>) -> Seq<char> {
    match identity {
        Ok(i) => if i.tenant_name@.len() > 0 {
            i.tenant_name@
        } else {
            i.tenant@
        },
        Err(_) => Seq::empty(),
    }
}

/// Best-effort display name for the saved-backend list.
pub fn display_name(identity: &Result<Identity, String>) -> (r: String)
    ensures
        r@ == display_name_of(*identity),
{
    match identity {
        Ok(i) => if !i.tenant_name.as_str().is_empty() {
            i.tenant_name.clone()
        } else {
            i.tenant.clone()
        },
        Err(_) => String::new(),
    }
}

/// One row of the provider list: `<provider id> · <capability>`.
pub fn provider_row(provider_id: &str, capability: &str) -> (r: String)
    ensures
        r@ == provider_id@ + " · "@ + capability@,
{
    provider_id.to_string().concat(" · ").concat(capability)
}

/// The human label of a mailbox entry of type `msg_type` from `source`.
pub open spec fn mailbox_label_of(msg_type: Seq<char>, source: Seq<char>) -> Seq<char> {
    if msg_type == "interrupt"@ {
        "Interrupt"@
    } else if msg_type != "trigger"@ {
        "Event"@
    } else if source == "user"@ {
        "Message"@
    } else if "session:"@.is_prefix_of(source) {
        "From session · "@ + source.skip("session:"@.len() as int)
    } else if "system:"@.is_prefix_of(source) {
        "From system · "@ + source.skip("system:"@.len() as int)
    } else {
        "Message"@
    }
}

/// (msgType, source) -> a human label.
pub fn mailbox_label(msg_type: &str, source: &str) -> (r: String)
    ensures
        r@ == mailbox_label_of(msg_type@, source@),
{
    if text_eq(msg_type, "interrupt") {
        return "Interrupt".to_string();
    }
    if !text_eq(msg_type, "trigger") {
        return "Event".to_string();
    }
    if text_eq(source, "user") {
        return "Message".to_string();
    }
    if let Some(name) = strip_prefix(source, "session:") {
        return "From session · ".to_string().concat(&name);
    }
    if let Some(name) = strip_prefix(source, "system:") {
        return "From system · ".to_string().concat(&name);
    }
    "Message".to_string()
}

/// The origin label of a message: `[<session>]` for a session hand-off,
/// `[system:<name>]` for a system notice, else the role in upper case.
pub open spec fn source_label_of(role: Seq<char>, source: Seq<char>) -> Seq<char> {
    if "session:"@.is_prefix_of(source) {
        "["@ + source.skip("session:"@.len() as int) + "]"@
    } else if "system:"@.is_prefix_of(source) {
        "[system:"@ + source.skip("system:"@.len() as int) + "]"@
    } else {
        upper_case(role)
    }
}

/// Render a message origin label (session hand-off / system notice).
pub fn source_label(role: &str, source: &str) -> (r: String)
    ensures
        r@ == source_label_of(role@, source@),
        !"session:"@.is_prefix_of(source@) && !"system:"@.is_prefix_of(source@)
            && vstd::utf8::is_ascii_chars(role@) ==> r@ == ascii_upper(role@),
{
    if let Some(name) = strip_prefix(source, "session:") {
        return "[".to_string().concat(&name).concat("]");
    }
    if let Some(name) = strip_prefix(source, "system:") {
        return "[system:".to_string().concat(&name).concat("]");
    }
    to_upper(role)
}

/// One entry of the mailbox as the agent reports it.
pub struct MailboxItem {
    pub msg_type: String,
    pub source: String,
    pub status: String,
}

/// One page of the mailbox (newest first, paged backward).
pub struct MailboxPage {
    pub entries: Vec<String>,
    pub has_more: bool,
}

/// A mailbox row: `<label> · <status>`.
pub open spec fn mailbox_row_of(item: MailboxItem) -> Seq<char> {
    mailbox_label_of(item.msg_type@, item.source@) + " · "@ + item.status@
}

/// The page of rows for `items`, in their order.
pub fn mailbox_page(items: &Vec<MailboxItem>, has_more: bool) -> (r: MailboxPage)
    ensures
        r.has_more == has_more,
        r.entries@.len() == items@.len(),
        forall|i: int|
            0 <= i < items@.len() ==> #[trigger] r.entries@[i]@ == mailbox_row_of(items@[i]),
{
    let mut entries: Vec<String> = Vec::new();
    let mut i: usize = 0;
    while i < items.len()
        invariant
            i <= items@.len(),
            entries@.len() == i,
            forall|j: int|
                0 <= j < i ==> #[trigger] entries@[j]@ == mailbox_row_of(items@[j]),
        decreases items@.len() - i,
    {
        let item = &items[i];
        let row = mailbox_label(&item.msg_type, &item.source).concat(" · ").concat(&item.status);
        entries.push(row);
        i += 1;
    }
    MailboxPage { entries, has_more }
}


#[verifier::external_type_specification]
#[verifier::external_body]
pub struct ExSystemTime(std::time::SystemTime);

/// `SystemTime::now`: a reading of the system clock; nothing is promised of it.
#[verifier::external_body]
fn clock_now() -> std::time::SystemTime {
    std::time::SystemTime::now()
}

/// `SystemTime::duration_since(UNIX_EPOCH)`, with its error (a clock set
/// before the epoch) turned into `None`. Nothing is stated of the duration:
/// it rests on the clock.
#[verifier::external_body]
fn since_unix_epoch(t: &std::time::SystemTime) -> Option<core::time::Duration> {
    t.duration_since(std::time::UNIX_EPOCH).ok()
}

/// `Duration::as_millis`: the whole milliseconds of `d`. `Duration` is opaque
/// here, so the contract states nothing of the value.
#[verifier::external_body]
fn duration_millis(d: &core::time::Duration) -> u128 {
    d.as_millis()
}

/// Milliseconds since the Unix epoch by the system clock; zero when the clock
/// stands before the epoch.
pub fn now_ms() -> u128 {
    let since = match since_unix_epoch(&clock_now()) {
        Some(d) => Some(duration_millis(&d)),
        None => None,
    };
    millis_or_zero(since)
}

/// The milliseconds since the epoch that a clock reading gave, or zero for a
/// clock that stands before the epoch.
pub fn millis_or_zero(since: Option<u128>) -> (r: u128)
    ensures
        r == match since {
            Some(m) => m,
            None => 0,
        },
{
    match since {
        Some(m) => m,
        None => 0,
    }
}


/// `base` without the slashes at its end, as `str::trim_end_matches('/')` leaves it.
pub open spec fn without_trailing_slashes(base: Seq<char>) -> Seq<char>
    decreases base.len(),
{
    if base.len() > 0 && base.last() == '/' {
        without_trailing_slashes(base.drop_last())
    } else {
        base
    }
}

/// The gateway's base URL with trailing slashes removed.
pub fn base_url(base: &str) -> (r: String)
    ensures
        r@ == without_trailing_slashes(base@),
{
    let cs = chars_of(base);
    let mut end: usize = cs.len();
    assert(cs@.subrange(0, end as int) =~= base@);
    while end > 0 && cs[end - 1] == '/'
        invariant
            end <= cs@.len(),
            cs@ == base@,
            without_trailing_slashes(cs@.subrange(0, end as int)) == without_trailing_slashes(
                base@,
            ),
        decreases end,
    {
        assert(cs@.subrange(0, end - 1) =~= cs@.subrange(0, end as int).drop_last());
        end -= 1;
    }
    string_of(&cs, 0, end)
}

/// The `Authorization` header value for `token`: `Bearer <token>`.
pub fn bearer(token: &str) -> (r: String)
    ensures
        r@ == "Bearer "@ + token@,
{
    "Bearer ".to_string().concat(token)
}

/// The request path of agent service method `method`.
pub fn rpc_path(method: &str) -> (r: String)
    ensures
        r@ == "/agent.v1.AgentService/"@ + method@,
{
    "/agent.v1.AgentService/".to_string().concat(method)
}

} // verus!
