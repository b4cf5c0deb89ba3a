//! The JSON body of the request to the upstream:
//! `{"messages":[{"content":..,"role":..},..],"stream":true}`, written
//! compactly with the keys of each object in sorted order, as `serde_json`
//! writes a `json!` object.
use vstd::prelude::*;
use crate::numeral::digit_char;

verus! {

/// How `serde_json` writes one character inside a string literal: `"` and
/// `\` behind a backslash, backspace, tab, line feed, form feed and carriage
/// return as `\b \t \n \f \r`, the other characters below 0x20 as `\u00XX`
/// with lower-case hex digits, and every other character as it is.
pub open spec fn json_escape_char(c: char) -> Seq<char> {
    let u = c as u32;
    if c == '"' {
        seq!['\\', '"']
    } else if c == '\\' {
        seq!['\\', '\\']
    } else if u == 8 {
        seq!['\\', 'b']
    } else if u == 9 {
        seq!['\\', 't']
    } else if u == 10 {
        seq!['\\', 'n']
    } else if u == 12 {
        seq!['\\', 'f']
    } else if u == 13 {
        seq!['\\', 'r']
    } else if u < 32 {
        seq!['\\', 'u', '0', '0', digit_char((u / 16) as nat), digit_char((u % 16) as nat)]
    } else {
        seq![c]
    }
}

/// The escaped characters of `s`.
pub open spec fn json_escape(s: Seq<char>) -> Seq<char>
    decreases s.len(),
{
    if s.len() == 0 {
        Seq::<char>::empty()
    } else {
        json_escape(s.drop_last()) + json_escape_char(s.last())
    }
}

/// What `serde_json` writes for the string `s`: the escaped characters
/// between double quotes.
pub open spec fn json_text(s: Seq<char>) -> Seq<char> {
    seq!['"'] + json_escape(s) + seq!['"']
}

/// `serde_json::to_string` on a `str`: the contract claims that the result
/// is the JSON string literal of `s` as `json_text` spells it out (the
/// compact formatter's escaping). Writing a `str` into memory cannot fail
/// (the serializer writes into a `Vec`), so the error arm is never taken.
#[verifier::external_body]
fn json_string(s: &str) -> (r: String)
    ensures
        r@ == json_text(s@),
{
    match serde_json::to_string(s) {
        Ok(t) => t,
        Err(_) => String::new(),
    }
}

/// One message of a conversation: who wrote it and what it says.
pub struct ChatMessage {
    pub role: String,
    pub content: String,
}

impl View for ChatMessage {
    type V = (Seq<char>, Seq<char>);

    open spec fn view(&self) -> (Seq<char>, Seq<char>) {
        (self.role@, self.content@)
    }
}

/// The messages of a list, as values.
pub open spec fn messages_model(ms: Seq<ChatMessage>) -> Seq<(Seq<char>, Seq<char>)> {
    ms.map_values(|m: ChatMessage| m@)
}

/// Role and content of each message as JSON string literals.
pub open spec fn quote_messages(ms: Seq<(Seq<char>, Seq<char>)>) -> Seq<(Seq<char>, Seq<char>)> {
    ms.map_values(|m: (Seq<char>, Seq<char>)| (json_text(m.0), json_text(m.1)))
}

/// The JSON object for one message, from its role and content already
/// written as JSON strings.
pub open spec fn message_json(q: (Seq<char>, Seq<char>)) -> Seq<char> {
    "{\"content\":"@ + q.1 + ",\"role\":"@ + q.0 + "}"@
}

/// The JSON objects of the messages, separated by commas.
pub open spec fn messages_json(qs: Seq<(Seq<char>, Seq<char>)>) -> Seq<char>
    decreases qs.len(),
{
    if qs.len() == 0 {
        Seq::<char>::empty()
    } else if qs.len() == 1 {
        message_json(qs[0])
    } else {
        messages_json(qs.drop_last()) + ","@ + message_json(qs.last())
    }
}

/// The body for messages whose roles and contents are already JSON strings.
pub open spec fn payload_json(qs: Seq<(Seq<char>, Seq<char>)>) -> Seq<char> {
    "{\"messages\":["@ + messages_json(qs) + "],\"stream\":true}"@
}

/// The body that asks the upstream for a streamed completion of the conversation.
pub open spec fn payload_text(ms: Seq<(Seq<char>, Seq<char>)>) -> Seq<char> {
    payload_json(quote_messages(ms))
}

/// Pairs of strings as pairs of character sequences.
pub open spec fn pairs_model(items: Seq<(String, String)>) -> Seq<(Seq<char>, Seq<char>)> {
    items.map_values(|q: (String, String)| (q.0@, q.1@))
}

/// Assembles the body from messages given as (role, content) pairs that are
/// already written as JSON strings.
pub fn payload_from_json_strings(items: &Vec<(String, String)>) -> (s: String)
    ensures
        s@ == payload_json(pairs_model(items@)),
{
    let ghost qs = pairs_model(items@);
    let mut s = String::from_str("{\"messages\":[");
    let mut i: usize = 0;
    while i < items.len()
        invariant
            i <= items.len(),
            qs == pairs_model(items@),
            s@ == "{\"messages\":["@ + messages_json(qs.take(i as int)),
        decreases items.len() - i,
    {
        if i > 0 {
            s.append(",");
        }
        let q = &items[i];
        s.append("{\"content\":");
        s.append(q.1.as_str());
        s.append(",\"role\":");
        s.append(q.0.as_str());
        s.append("}");
        proof {
            let t = qs.take(i + 1);
            assert(t.drop_last() == qs.take(i as int));
            assert(t.last() == (items@[i as int].0@, items@[i as int].1@));
            if i == 0 {
                assert(qs.take(0) =~= Seq::<(Seq<char>, Seq<char>)>::empty());
                assert(t.len() == 1);
            }
            assert(s@ =~= "{\"messages\":["@ + messages_json(t));
        }
        i = i + 1;
    }
    assert(qs.take(items.len() as int) == qs);
    s.append("],\"stream\":true}");
    s
}

/// The body of the request to the upstream for these messages.
pub fn chat_payload(messages: &Vec<ChatMessage>) -> (s: String)
    ensures
        s@ == payload_text(messages_model(messages@)),
{
    let ghost ms = messages_model(messages@);
    let mut items: Vec<(String, String)> = Vec::new();
    let mut i: usize = 0;
    while i < messages.len()
        invariant
            i <= messages.len(),
            ms == messages_model(messages@),
            pairs_model(items@) =~= quote_messages(
                ms.take(i as int),
            ),
        decreases messages.len() - i,
    {
        let m = &messages[i];
        let ghost before = items@;
        let pair = (json_string(m.role.as_str()), json_string(m.content.as_str()));
        items.push(pair);
        assert(items@ == before.push(pair));
        assert(pairs_model(items@) =~= pairs_model(before).push((pair.0@, pair.1@)));
        assert(ms.take(i + 1) == ms.take(i as int).push(ms[i as int]));
        assert(quote_messages(ms.take(i + 1)) =~= quote_messages(ms.take(i as int)).push(
            (json_text(ms[i as int].0), json_text(ms[i as int].1)),
        ));
        i = i + 1;
    }
    assert(ms.take(messages.len() as int) == ms);
    payload_from_json_strings(&items)
}

/// The body for no messages holds an empty list.
pub proof fn law_payload_of_no_messages()
    ensures
        payload_json(Seq::<(Seq<char>, Seq<char>)>::empty()) == "{\"messages\":[],\"stream\":true}"@,
{
    reveal_strlit("{\"messages\":[");
    reveal_strlit("],\"stream\":true}");
    reveal_strlit("{\"messages\":[],\"stream\":true}");
    assert(payload_json(Seq::<(Seq<char>, Seq<char>)>::empty()) =~= "{\"messages\":[],\"stream\":true}"@);
}

/// Every message goes into the body, in order: the body for one more
/// message is the body before, with that message's object added at the end
/// of the list (after a comma unless the list was empty).
pub proof fn law_payload_appends_message(qs: Seq<(Seq<char>, Seq<char>)>, q: (Seq<char>, Seq<char>))
    ensures
        ({
            let tail = "],\"stream\":true}"@;
            let p = payload_json(qs);
            payload_json(qs.push(q)) == p.take(p.len() - tail.len()) + (if qs.len() == 0 {
                ""@
            } else {
                ","@
            }) + message_json(q) + tail
        }),
{
    reveal_strlit("");
    let head = "{\"messages\":["@;
    let tail = "],\"stream\":true}"@;
    let p = payload_json(qs);
    let ys = qs.push(q);
    assert(ys.drop_last() =~= qs);
    assert(ys.last() == q);
    if qs.len() == 0 {
        assert(ys[0] == q);
        assert(messages_json(ys) == message_json(q));
    } else {
        assert(messages_json(ys) == messages_json(qs) + ","@ + message_json(q));
    }
    assert(p.take(p.len() - tail.len()) =~= head + messages_json(qs));
    if qs.len() == 0 {
        assert(messages_json(qs) =~= Seq::<char>::empty());
        assert(payload_json(ys) =~= p.take(p.len() - tail.len()) + ""@ + message_json(q) + tail);
    } else {
        assert(payload_json(ys) =~= p.take(p.len() - tail.len()) + ","@ + message_json(q) + tail);
    }
}

/// The same for a conversation: one more message adds its object, with role
/// and content written as JSON strings, at the end of the list.
pub proof fn law_payload_text_appends_message(
    ms: Seq<(Seq<char>, Seq<char>)>,
    m: (Seq<char>, Seq<char>),
)
    ensures
        ({
            let tail = "],\"stream\":true}"@;
            let p = payload_text(ms);
            payload_text(ms.push(m)) == p.take(p.len() - tail.len()) + (if ms.len() == 0 {
                ""@
            } else {
                ","@
            }) + message_json((json_text(m.0), json_text(m.1))) + tail
        }),
{
    let q = (json_text(m.0), json_text(m.1));
    assert(quote_messages(ms.push(m)) =~= quote_messages(ms).push(q));
    law_payload_appends_message(quote_messages(ms), q);
}

/// The body for a single message is the object `{"content":…,"role":…}`
/// with its content and role written as JSON strings, alone in the list,
/// followed by the request to stream.
pub proof fn law_payload_of_one_message(m: (Seq<char>, Seq<char>))
    ensures
        payload_text(seq![m]) == "{\"messages\":[{\"content\":"@ + json_text(m.1) + ",\"role\":"@
            + json_text(m.0) + "}],\"stream\":true}"@,
{
    reveal_strlit("{\"messages\":[{\"content\":");
    reveal_strlit("{\"messages\":[");
    reveal_strlit("{\"content\":");
    reveal_strlit(",\"role\":");
    reveal_strlit("}");
    reveal_strlit("}],\"stream\":true}");
    reveal_strlit("],\"stream\":true}");
    let qs = quote_messages(seq![m]);
    assert(qs.len() == 1);
    assert(qs[0] == (json_text(m.0), json_text(m.1)));
    assert(payload_text(seq![m]) =~= "{\"messages\":[{\"content\":"@ + json_text(m.1) + ",\"role\":"@
        + json_text(m.0) + "}],\"stream\":true}"@);
}

} // verus!
