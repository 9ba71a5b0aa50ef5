//! Rendering a stored message chain into transcript lines.
use vstd::prelude::*;

use crate::text::{blank, is_blank, strip_prefix, text_eq};

verus! {

/// The string member `key` of the JSON document `data`, as
/// `serde_json::from_str::<serde_json::Value>` followed by `Value::get` and
/// `Value::as_str` find it: nothing when `data` is not JSON, is not an object,
/// lacks `key`, or holds a non-string there.
pub uninterp spec fn json_string_member(data: Seq<char>, key: Seq<char>) -> Option<Seq<char>>;

/// Parses `data` with `serde_json::from_str` into a `serde_json::Value` and
/// looks the member `key` up with `Value::get`, keeping it when it is a JSON
/// string (the `Value::String` variant, which `Value::as_str` reads). The
/// contract names the result `json_string_member(data, key)` and says nothing
/// more of it: which JSON text holds which member is serde_json's to decide.
#[verifier::external_body]
fn json_str_member(data: &str, key: &str) -> (r: Option<String>)
    ensures
        match r {
            Some(v) => json_string_member(data@, key@) == Some(v@),
            None => json_string_member(data@, key@) is None,
        },
{
    let doc: serde_json::Value = match serde_json::from_str(data) {
        Ok(v) => v,
        Err(_) => return None,
    };
    match doc.get(key) {
        Some(serde_json::Value::String(t)) => Some(t.clone()),
        _ => None,
    }
}

/// One part of a stored message: its type and its JSON payload.
pub struct MessagePart {
    pub part_type: String,
    pub data: String,
}

/// A stored message: where it came from, its role and its parts.
pub struct StoredMessage {
    pub source: String,
    pub role: String,
    pub parts: Vec<MessagePart>,
}

/// Who a transcript line is attributed to: `[<session>]` for a session
/// hand-off, `[system:<name>]` for a system notice, else `You` for the user,
/// `Agent` for the assistant and the role itself for any other role.
pub open spec fn speaker_of(source: Seq<char>, role: Seq<char>) -> Seq<char> {
    if "session:"@.is_prefix_of(source) {
        "["@ + source.skip("session:"@.len() as int) + "]"@
    } else if "system:"@.is_prefix_of(source) {
        "[system:"@ + source.skip("system:"@.len() as int) + "]"@
    } else if role == "user"@ {
        "You"@
    } else if role == "assistant"@ {
        "Agent"@
    } else {
        role
    }
}

/// The line a part contributes, given its `text` and `name` members: a text
/// or reasoning part shows its text after the speaker unless that is missing
/// or blank; a tool part shows its name (or `tool`); any other part shows
/// nothing.
pub open spec fn member_line(
    who: Seq<char>,
    part_type: Seq<char>,
    text: Option<Seq<char>>,
    name: Option<Seq<char>>,
) -> Option<Seq<char>> {
    if part_type == "text"@ || part_type == "reasoning"@ {
        match text {
            Some(t) => if !is_blank(t) {
                Some(who + ": "@ + t)
            } else {
                None
            },
            None => None,
        }
    } else if part_type == "tool"@ {
        Some(
            "[tool: "@ + match name {
                Some(n) => n,
                None => "tool"@,
            } + "]"@,
        )
    } else {
        None
    }
}

/// The line a part contributes, its members read from its JSON payload.
pub open spec fn part_line(who: Seq<char>, part_type: Seq<char>, data: Seq<char>) -> Option<
    Seq<char>,
> {
    member_line(
        who,
        part_type,
        json_string_member(data, "text"@),
        json_string_member(data, "name"@),
    )
}

pub open spec fn opt_text(o: Option<String>) -> Option<Seq<char>> {
    match o {
        Some(s) => Some(s@),
        None => None,
    }
}

pub open spec fn optional_line(l: Option<Seq<char>>) -> Seq<Seq<char>> {
    match l {
        Some(x) => seq![x],
        None => Seq::empty(),
    }
}

/// The lines of a message's parts, in order.
pub open spec fn parts_lines(who: Seq<char>, parts: Seq<MessagePart>) -> Seq<Seq<char>>
    decreases parts.len(),
{
    if parts.len() == 0 {
        Seq::empty()
    } else {
        parts_lines(who, parts.drop_last()) + optional_line(
            part_line(who, parts.last().part_type@, parts.last().data@),
        )
    }
}

/// The lines of a message chain, message after message.
pub open spec fn transcript_of(messages: Seq<StoredMessage>) -> Seq<Seq<char>>
    decreases messages.len(),
{
    if messages.len() == 0 {
        Seq::empty()
    } else {
        let m = messages.last();
        transcript_of(messages.drop_last()) + parts_lines(
            speaker_of(m.source@, m.role@),
            m.parts@,
        )
    }
}

pub open spec fn line_texts(v: Seq<String>) -> Seq<Seq<char>> {
    v.map_values(|s: String| s@)
}

/// Who the lines of a message are attributed to.
pub fn speaker(source: &str, role: &str) -> (r: String)
    ensures
        r@ == speaker_of(source@, role@),
{
    if let Some(name) = strip_prefix(source, "session:") {
        return "[".to_string().concat(&name).concat("]");
    }
    if let Some(name) = strip_prefix(source, "system:") {
        return "[system:".to_string().concat(&name).concat("]");
    }
    if text_eq(role, "user") {
        "You".to_string()
    } else if text_eq(role, "assistant") {
        "Agent".to_string()
    } else {
        role.to_string()
    }
}

/// The transcript line of a part of type `part_type`, given its `text` and
/// `name` members.
pub fn format_part(who: &str, part_type: &str, text: Option<String>, name: Option<String>) -> (r:
    Option<String>)
    ensures
        match r {
            Some(l) => member_line(who@, part_type@, opt_text(text), opt_text(name)) == Some(l@),
            None => member_line(who@, part_type@, opt_text(text), opt_text(name)) is None,
        },
{
    if text_eq(part_type, "text") || text_eq(part_type, "reasoning") {
        match text {
            Some(txt) => if !blank(txt.as_str()) {
                Some(who.to_string().concat(": ").concat(txt.as_str()))
            } else {
                None
            },
            None => None,
        }
    } else if text_eq(part_type, "tool") {
        let name = match name {
            Some(n) => n,
            None => "tool".to_string(),
        };
        Some("[tool: ".to_string().concat(name.as_str()).concat("]"))
    } else {
        None
    }
}

/// The transcript line of one part, if it has one.
pub fn render_part(who: &str, part: &MessagePart) -> (r: Option<String>)
    ensures
        match r {
            Some(l) => part_line(who@, part.part_type@, part.data@) == Some(l@),
            None => part_line(who@, part.part_type@, part.data@) is None,
        },
{
    let t = part.part_type.as_str();
    let text = if text_eq(t, "text") || text_eq(t, "reasoning") {
        json_str_member(part.data.as_str(), "text")
    } else {
        None
    };
    let name = if text_eq(t, "tool") {
        json_str_member(part.data.as_str(), "name")
    } else {
        None
    };
    format_part(who, t, text, name)
}

/// Render a stored message chain into display lines.
pub fn render_messages(messages: &Vec<StoredMessage>) -> (lines: Vec<String>)
    ensures
        line_texts(lines@) == transcript_of(messages@),
{
    let mut lines: Vec<String> = Vec::new();
    let mut i: usize = 0;
    while i < messages.len()
        invariant
            i <= messages@.len(),
            line_texts(lines@) == transcript_of(messages@.take(i as int)),
        decreases messages@.len() - i,
    {
        let m = &messages[i];
        let who = speaker(m.source.as_str(), m.role.as_str());
        let ghost base = line_texts(lines@);
        let mut j: usize = 0;
        while j < m.parts.len()
            invariant
                j <= m.parts@.len(),
                who@ == speaker_of(m.source@, m.role@),
                line_texts(lines@) == base + parts_lines(who@, m.parts@.take(j as int)),
            decreases m.parts@.len() - j,
        {
            let ghost prior = line_texts(lines@);
            let ghost part = m.parts@[j as int];
            assert(m.parts@.take(j + 1).drop_last() =~= m.parts@.take(j as int));
            assert(m.parts@.take(j + 1).last() == part);
            assert(parts_lines(who@, m.parts@.take(j + 1)) == parts_lines(
                who@,
                m.parts@.take(j as int),
            ) + optional_line(part_line(who@, part.part_type@, part.data@)));
            if let Some(l) = render_part(who.as_str(), &m.parts[j]) {
                lines.push(l);
                assert(line_texts(lines@) =~= prior + seq![l@]);
            } else {
                assert(optional_line(part_line(who@, part.part_type@, part.data@)) =~= Seq::<
                    Seq<char>,
                >::empty());
            }
            assert(line_texts(lines@) =~= base + parts_lines(who@, m.parts@.take(j + 1)));
            j += 1;
        }
        assert(m.parts@.take(m.parts@.len() as int) =~= m.parts@);
        assert(messages@.take(i + 1).drop_last() =~= messages@.take(i as int));
        i += 1;
    }
    assert(messages@.take(messages@.len() as int) =~= messages@);
    lines
}


/// Each part contributes its line on its own: the lines of a run of parts
/// are the lines of its first stretch followed by those of the rest.
pub proof fn law_parts_lines_concatenate(who: Seq<char>, p: Seq<MessagePart>, q: Seq<MessagePart>)
    ensures
        parts_lines(who, p + q) == parts_lines(who, p) + parts_lines(who, q),
    decreases q.len(),
{
    if q.len() == 0 {
        assert(p + q =~= p);
        assert(parts_lines(who, p) + parts_lines(who, q) =~= parts_lines(who, p));
    } else {
        law_parts_lines_concatenate(who, p, q.drop_last());
        assert((p + q).drop_last() =~= p + q.drop_last());
        assert((p + q).last() == q.last());
        assert(parts_lines(who, p + q) =~= parts_lines(who, p) + parts_lines(who, q));
    }
}

/// A part alone gives the line `part_line` describes for it, and nothing else.
pub proof fn law_single_part_lines(who: Seq<char>, part: MessagePart)
    ensures
        parts_lines(who, seq![part]) == optional_line(
            part_line(who, part.part_type@, part.data@),
        ),
{
    assert(seq![part].drop_last() =~= Seq::<MessagePart>::empty());
    assert(parts_lines(who, seq![part].drop_last()) =~= Seq::<Seq<char>>::empty());
    assert(seq![part].last() == part);
    assert(Seq::<Seq<char>>::empty() + optional_line(part_line(who, part.part_type@, part.data@))
        =~= optional_line(part_line(who, part.part_type@, part.data@)));
}

/// What a part's line is, read off its JSON payload: a text or reasoning part
/// whose `text` member is a non-blank string `t` gives `<who>: <t>`, and no
/// line when that member is missing, not a string or blank; a tool part gives
/// `[tool: <name>]`, with `tool` when its `name` member is not a string; a part
/// of any other type gives no line.
pub proof fn law_part_line_cases(who: Seq<char>, part_type: Seq<char>, data: Seq<char>)
    ensures
        (part_type == "text"@ || part_type == "reasoning"@) ==> match json_string_member(
            data,
            "text"@,
        ) {
            Some(t) => part_line(who, part_type, data) == (if is_blank(t) {
                None
            } else {
                Some(who + ": "@ + t)
            }),
            None => part_line(who, part_type, data) is None,
        },
        part_type == "tool"@ ==> part_line(who, part_type, data) == Some(
            "[tool: "@ + match json_string_member(data, "name"@) {
                Some(n) => n,
                None => "tool"@,
            } + "]"@,
        ),
        part_type != "text"@ && part_type != "reasoning"@ && part_type != "tool"@ ==> part_line(
            who,
            part_type,
            data,
        ) is None,
{
    reveal_strlit("tool");
    reveal_strlit("text");
    reveal_strlit("reasoning");
    assert("tool"@[1] != "text"@[1]);
    assert("tool"@.len() != "reasoning"@.len());
}

/// Messages contribute their lines independently: the transcript of a chain
/// is the transcript of its first stretch followed by that of the rest, and a
/// single message gives the lines of its parts under its speaker.
pub proof fn law_transcript_concatenates(m1: Seq<StoredMessage>, m2: Seq<StoredMessage>)
    ensures
        transcript_of(m1 + m2) == transcript_of(m1) + transcript_of(m2),
    decreases m2.len(),
{
    if m2.len() == 0 {
        assert(m1 + m2 =~= m1);
        assert(transcript_of(m1) + transcript_of(m2) =~= transcript_of(m1));
    } else {
        law_transcript_concatenates(m1, m2.drop_last());
        assert((m1 + m2).drop_last() =~= m1 + m2.drop_last());
        assert((m1 + m2).last() == m2.last());
        assert(transcript_of(m1 + m2) =~= transcript_of(m1) + transcript_of(m2));
    }
}

/// A single message gives the lines of its parts, attributed to its speaker.
pub proof fn law_single_message_lines(m: StoredMessage)
    ensures
        transcript_of(seq![m]) == parts_lines(speaker_of(m.source@, m.role@), m.parts@),
{
    assert(seq![m].drop_last() =~= Seq::<StoredMessage>::empty());
    assert(transcript_of(seq![m].drop_last()) =~= Seq::<Seq<char>>::empty());
    assert(seq![m].last() == m);
    assert(Seq::<Seq<char>>::empty() + parts_lines(speaker_of(m.source@, m.role@), m.parts@)
        =~= parts_lines(speaker_of(m.source@, m.role@), m.parts@));
}

} // verus!
