//! The chat transcript of the main window: starting a turn, turning streamed
//! prompt events into text, and appending that text to the agent's line.
use vstd::prelude::*;

use crate::text::{push_decimal, decimal, text_eq, trim, trimmed};

verus! {

/// The value stored under `key` among the event parameters (the first pair
/// with that key).
pub open spec fn param_value(params: Seq<(String, String)>, key: Seq<char>) -> Option<Seq<char>>
    decreases params.len(),
{
    if params.len() == 0 {
        None
    } else if params[0].0@ == key {
        Some(params[0].1@)
    } else {
        param_value(params.drop_first(), key)
    }
}

proof fn lemma_param_value_skip(params: Seq<(String, String)>, key: Seq<char>, i: int)
    requires
        0 <= i <= params.len(),
        forall|j: int| 0 <= j < i ==> (#[trigger] params[j]).0@ != key,
    ensures
        param_value(params, key) == param_value(params.skip(i), key),
    decreases i,
{
    if i == 0 {
        assert(params.skip(0) =~= params);
    } else {
        assert(params[0].0@ != key);
        assert(params.drop_first().skip(i - 1) =~= params.skip(i));
        assert forall|j: int| 0 <= j < i - 1 implies (#[trigger] params.drop_first()[j]).0@
            != key by {
            assert(params.drop_first()[j] == params[j + 1]);
        }
        lemma_param_value_skip(params.drop_first(), key, i - 1);
    }
}

/// The value of event parameter `key`, if the event carries it.
pub fn param(params: &Vec<(String, String)>, key: &str) -> (r: Option<String>)
    ensures
        match r {
            Some(v) => param_value(params@, key@) == Some(v@),
            None => param_value(params@, key@) is None,
        },
{
    let mut i: usize = 0;
    while i < params.len()
        invariant
            i <= params@.len(),
            forall|j: int| 0 <= j < i ==> (#[trigger] params@[j]).0@ != key@,
        decreases params@.len() - i,
    {
        if text_eq(params[i].0.as_str(), key) {
            proof {
                lemma_param_value_skip(params@, key@, i as int);
                assert(params@.skip(i as int)[0] == params@[i as int]);
            }
            return Some(params[i].1.clone());
        }
        i += 1;
    }
    proof {
        lemma_param_value_skip(params@, key@, i as int);
    }
    None
}

/// The text a streamed event adds: a `text-delta` its `text`, a
/// `reasoning-delta` its `text` after `[reasoning] `, a `tool-call` the tool's
/// name (`toolName`, else `name`, else `tool`) on a line of its own; other
/// events add nothing.
pub open spec fn event_text(event: Seq<char>, params: Seq<(String, String)>) -> Option<Seq<char>> {
    let text = match param_value(params, "text"@) {
        Some(t) => t,
        None => Seq::empty(),
    };
    if event == "text-delta"@ {
        Some(text)
    } else if event == "reasoning-delta"@ {
        Some("[reasoning] "@ + text)
    } else if event == "tool-call"@ {
        Some(
            "\n[tool: "@ + match param_value(params, "toolName"@) {
                Some(n) => n,
                None => match param_value(params, "name"@) {
                    Some(n) => n,
                    None => "tool"@,
                },
            } + "]\n"@,
        )
    } else {
        None
    }
}

/// The text an event appends to the transcript: `event_text`, unless empty.
pub open spec fn event_line_of(event: Seq<char>, params: Seq<(String, String)>) -> Option<
    Seq<char>,
> {
    match event_text(event, params) {
        Some(l) => if l.len() > 0 {
            Some(l)
        } else {
            None
        },
        None => None,
    }
}

/// The text that streamed event `event` with `params` appends, if any.
pub fn event_line(event: &str, params: &Vec<(String, String)>) -> (r: Option<String>)
    ensures
        match r {
            Some(l) => event_line_of(event@, params@) == Some(l@) && l@.len() > 0,
            None => event_line_of(event@, params@) is None,
        },
{
    let text = match param(params, "text") {
        Some(t) => t,
        None => String::new(),
    };
    let line = if text_eq(event, "text-delta") {
        text
    } else if text_eq(event, "reasoning-delta") {
        "[reasoning] ".to_string().concat(text.as_str())
    } else if text_eq(event, "tool-call") {
        let name = match param(params, "toolName") {
            Some(n) => n,
            None => match param(params, "name") {
                Some(n) => n,
                None => "tool".to_string(),
            },
        };
        "\n[tool: ".to_string().concat(name.as_str()).concat("]\n")
    } else {
        return None;
    };
    if line.as_str().is_empty() {
        None
    } else {
        Some(line)
    }
}

/// `lines` with `text` appended to the last line (or as the only line when
/// there is none yet).
pub open spec fn appended(lines: Seq<Seq<char>>, text: Seq<char>) -> Seq<Seq<char>> {
    if lines.len() == 0 {
        seq![text]
    } else {
        lines.drop_last().push(lines.last() + text)
    }
}

pub open spec fn line_texts(v: Seq<String>) -> Seq<Seq<char>> {
    v.map_values(|s: String| s@)
}

/// Append streamed text to the last (agent) transcript line.
pub fn append_delta(lines: &mut Vec<String>, text: &str)
    ensures
        line_texts(final(lines)@) == appended(line_texts(old(lines)@), text@),
{
    let ghost before = lines@;
    match lines.pop() {
        Some(last) => {
            lines.push(last.concat(text));
            assert(line_texts(lines@) =~= appended(line_texts(before), text@));
        },
        None => {
            lines.push(text.to_string());
            assert(line_texts(lines@) =~= appended(line_texts(before), text@));
        },
    }
}

/// Appending two pieces of streamed text one after the other gives the same
/// transcript as appending them joined.
pub proof fn law_deltas_concatenate(lines: Seq<Seq<char>>, a: Seq<char>, b: Seq<char>)
    ensures
        appended(appended(lines, a), b) == appended(lines, a + b),
{
    if lines.len() == 0 {
        assert(seq![a].drop_last().push(seq![a].last() + b) =~= seq![a + b]);
    } else {
        assert(lines.last() + a + b =~= lines.last() + (a + b));
        assert(appended(appended(lines, a), b) =~= appended(lines, a + b));
    }
}

/// Starts a prompt turn: with a non-blank prompt and an open session, the
/// transcript gains `You: <prompt>` and an empty `Agent: ` line for the reply,
/// and the trimmed prompt is returned; otherwise nothing changes.
pub fn begin_turn(lines: &mut Vec<String>, session_id: &str, composer: &str) -> (r: Option<String>)
    ensures
        match r {
            Some(t) => {
                &&& t@ == trimmed(composer@)
                &&& t@.len() > 0 && session_id@.len() > 0
                &&& line_texts(final(lines)@) == line_texts(old(lines)@).push("You: "@ + t@).push(
                    "Agent: "@,
                )
            },
            None => {
                &&& (trimmed(composer@).len() == 0 || session_id@.len() == 0)
                &&& final(lines)@ == old(lines)@
            },
        },
{
    let text = trim(composer);
    if text.as_str().is_empty() || session_id.is_empty() {
        return None;
    }
    let ghost before = line_texts(lines@);
    lines.push("You: ".to_string().concat(text.as_str()));
    lines.push("Agent: ".to_string());
    assert(line_texts(lines@) =~= before.push("You: "@ + text@).push("Agent: "@));
    Some(text)
}

/// The name of a session created at epoch millisecond `ms`: `easy-<ms>`.
pub fn new_session_name(ms: u128) -> (r: String)
    ensures
        r@ == "easy-"@ + decimal(ms as nat),
{
    let mut s = "easy-".to_string();
    push_decimal(&mut s, ms);
    s
}

} // verus!
