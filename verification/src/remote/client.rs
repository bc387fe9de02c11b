//! The client side of the remote runtime, apart from its I/O: which incoming message answers a
//! call, and what the handshake's result says.
use vstd::prelude::*;
use crate::input::history::views;
use crate::json::{entry_from, json_array, json_get, json_i64, json_str, json_u64, Json, JsonV};
use crate::lsp::session::int_json;
use crate::remote::agent::{plan_of, AgentRequestV};
use crate::remote::error::{message_of, AgentErrorV};
use crate::remote::protocol::{negotiate, negotiated, request_of, response_of, str_views};
use crate::text::owned;

verus! {

/// What an incoming message means to a call waiting for the reply to `id`.
#[derive(Debug)]
pub enum ReplyMatch {
    /// Not the reply (a malformed frame, or another id): keep reading.
    Skip,
    /// The reply is an error with this message.
    Failed(String),
    /// The reply's result.
    Done(Json),
}

/// The view of a reply match.
pub enum ReplyMatchV {
    Skip,
    Failed(Seq<char>),
    Done(JsonV),
}

impl View for ReplyMatch {
    type V = ReplyMatchV;

    open spec fn view(&self) -> ReplyMatchV {
        match self {
            ReplyMatch::Skip => ReplyMatchV::Skip,
            ReplyMatch::Failed(m) => ReplyMatchV::Failed(m@),
            ReplyMatch::Done(j) => ReplyMatchV::Done(j@),
        }
    }
}

/// A message answers the call `id` when its integer `id` is `id`: an `error` member makes it a
/// failure with the error's `message` (or "agent error"), else its `result` (or `null`) is the
/// answer; `null` and other ids are skipped.
pub open spec fn reply_of(msg: JsonV, id: i64) -> ReplyMatchV {
    if msg is Null {
        ReplyMatchV::Skip
    } else {
        match json_get(msg, "id"@) {
            Some(i) if json_i64(i) == Some(id) => match json_get(msg, "error"@) {
                Some(err) => match json_get(err, "message"@) {
                    Some(m) if json_str(m) is Some => ReplyMatchV::Failed(json_str(m)->0),
                    _ => ReplyMatchV::Failed("agent error"@),
                },
                None => match json_get(msg, "result"@) {
                    Some(r) => ReplyMatchV::Done(r),
                    None => ReplyMatchV::Done(JsonV::Null),
                },
            },
            _ => ReplyMatchV::Skip,
        }
    }
}

/// Matches an incoming message against the call `id` (see `reply_of`).
pub fn match_reply(msg: &Json, id: i64) -> (r: ReplyMatch)
    ensures
        r@ == reply_of(msg@, id),
{
    if let Json::Null = msg {
        return ReplyMatch::Skip;
    }
    let matches = match msg.get("id") {
        Some(i) => match i.as_i64() {
            Some(x) => x == id,
            None => false,
        },
        None => false,
    };
    if !matches {
        return ReplyMatch::Skip;
    }
    match msg.get("error") {
        Some(err) => match err.get("message") {
            Some(m) => match m.as_str() {
                Some(s) => ReplyMatch::Failed(owned(s)),
                None => ReplyMatch::Failed(owned("agent error")),
            },
            None => ReplyMatch::Failed(owned("agent error")),
        },
        None => match msg.get("result") {
            Some(r) => ReplyMatch::Done(r.copy()),
            None => ReplyMatch::Done(Json::Null),
        },
    }
}

/// The strings of an array, in order, skipping other elements.
pub open spec fn strings_in(a: Seq<JsonV>) -> Seq<Seq<char>>
    decreases a.len(),
{
    if a.len() == 0 {
        seq![]
    } else {
        strings_in(a.drop_last()) + match json_str(a.last()) {
            Some(s) => seq![s],
            None => seq![],
        }
    }
}

/// The capabilities a handshake result offers: the strings of its `capabilities` array.
pub open spec fn offered_of(result: JsonV) -> Seq<Seq<char>> {
    match json_get(result, "capabilities"@) {
        Some(c) if json_array(c) is Some => strings_in(json_array(c)->0),
        _ => seq![],
    }
}

/// The agent's protocol version in a handshake result: `protocolVersion` (cut to `u32`), or 0.
pub open spec fn version_of(result: JsonV) -> u32 {
    match json_get(result, "protocolVersion"@) {
        Some(v) if json_u64(v) is Some => json_u64(v)->0 as u32,
        _ => 0,
    }
}

/// Reads a handshake result: the agent's protocol version and the capabilities both sides
/// support (the wanted ones the agent offers, in the order wanted).
pub fn handshake(result: &Json, want: &[&str]) -> (r: (u32, Vec<String>))
    ensures
        r.0 == version_of(result@),
        views(r.1@) == negotiated(str_views(want@), offered_of(result@)),
{
    let version: u32 = match result.get("protocolVersion") {
        Some(v) => match v.as_u64() {
            Some(n) => #[verifier::truncate] (n as u32),
            None => 0,
        },
        None => 0,
    };
    let mut offered: Vec<String> = Vec::new();
    if let Some(c) = result.get("capabilities") {
        if let Some(a) = c.as_array() {
            let ghost av = json_array(c@)->0;
            let mut i: usize = 0;
            while i < a.len()
                invariant
                    i <= a@.len(),
                    av.len() == a@.len(),
                    forall|k: int| 0 <= k < a@.len() ==> #[trigger] av[k] == a@[k]@,
                    views(offered@) == strings_in(av.take(i as int)),
                decreases a.len() - i,
            {
                assert(av.take(i + 1).drop_last() =~= av.take(i as int));
                assert(av.take(i + 1).last() == a@[i as int]@);
                let ghost before = views(offered@);
                match a[i].as_str() {
                    Some(s) => {
                        offered.push(owned(s));
                        assert(views(offered@) =~= before + seq![s@]);
                    },
                    None => {},
                }
                i += 1;
            }
            assert(av.take(a@.len() as int) =~= av);
        }
    }
    proof {
        if !(json_get(result@, "capabilities"@) matches Some(c) && json_array(c) is Some) {
            assert(views(offered@) =~= Seq::<Seq<char>>::empty());
        }
    }
    let caps = negotiate(want, offered.as_slice());
    (version, caps)
}

/// The text of a `fs/readFile` result: its `content`, or empty.
pub fn file_content(result: &Json) -> (r: String)
    ensures
        r@ == match json_get(result@, "content"@) {
            Some(c) if json_str(c) is Some => json_str(c)->0,
            _ => Seq::<char>::empty(),
        },
{
    match result.get("content") {
        Some(c) => match c.as_str() {
            Some(s) => owned(s),
            None => String::new(),
        },
        None => String::new(),
    }
}

/// The id the agent answers a planned request with (none for a skipped one).
pub open spec fn answer_id(p: AgentRequestV) -> Option<JsonV> {
    match p {
        AgentRequestV::Skip => None,
        AgentRequestV::Shutdown { id } => Some(id),
        AgentRequestV::Reply { id, .. } => Some(id),
        AgentRequestV::Fs { id, .. } => Some(id),
    }
}

/// Law: a call comes back as what the agent answered. The agent answers a request with the id
/// the client sent; the client reads a response to its call as the result, or as a failure with
/// the error's message; and a response to another call is skipped.
pub proof fn law_call_round_trip(
    id: i64,
    other: i64,
    method: Seq<char>,
    params: JsonV,
    reply: Result<JsonV, AgentErrorV>,
)
    requires
        other != id,
    ensures
        answer_id(plan_of(request_of(id, method, params))) == Some(int_json(id)),
        reply_of(response_of(int_json(id), reply), id) == match reply {
            Ok(v) => ReplyMatchV::Done(v),
            Err(e) => ReplyMatchV::Failed(message_of(e)),
        },
        reply_of(response_of(int_json(other), reply), id) == ReplyMatchV::Skip,
{
    reveal_strlit("id");
    reveal_strlit("method");
    reveal_strlit("params");
    reveal_strlit("result");
    reveal_strlit("error");
    reveal_strlit("message");
    assert("id"@.len() == 2 && "error"@.len() == 5 && "result"@.len() == 6);
    let req = request_of(id, method, params);
    assert(json_get(req, "id"@) == Some(int_json(id)));
    assert(json_i64(int_json(id)) == Some(id));
    assert(json_i64(int_json(other)) == Some(other));
    match reply {
        Ok(v) => {
            let msg = response_of(int_json(id), reply);
            let o = seq![("id"@, int_json(id)), ("result"@, v)];
            assert(msg == JsonV::Object(o));
            assert(json_get(msg, "id"@) == Some(int_json(id)));
            assert(entry_from(o, "error"@, 2) is None);
            assert(o[1].0 != "error"@);
            assert(entry_from(o, "error"@, 1) is None);
            assert(o[0].0 != "error"@);
            assert(json_get(msg, "error"@) is None);
            assert(o[0].0 != "result"@);
            assert(entry_from(o, "result"@, 1) == Some(v));
            assert(json_get(msg, "result"@) == Some(v));
            assert(json_get(response_of(int_json(other), reply), "id"@) == Some(int_json(other)));
        },
        Err(e) => {
            let msg = response_of(int_json(id), reply);
            let err = JsonV::Object(seq![("message"@, JsonV::Str(message_of(e)))]);
            let o = seq![("error"@, err), ("id"@, int_json(id))];
            assert(msg == JsonV::Object(o));
            assert(json_get(msg, "error"@) == Some(err));
            assert(o[0].0 != "id"@);
            assert(entry_from(o, "id"@, 1) == Some(int_json(id)));
            assert(json_get(msg, "id"@) == Some(int_json(id)));
            assert(json_get(err, "message"@) == Some(JsonV::Str(message_of(e))));
            let o2 = seq![("error"@, err), ("id"@, int_json(other))];
            assert(response_of(int_json(other), reply) == JsonV::Object(o2));
            assert(o2[0].0 != "id"@);
            assert(entry_from(o2, "id"@, 1) == Some(int_json(other)));
            assert(json_get(response_of(int_json(other), reply), "id"@) == Some(int_json(other)));
        },
    }
}

} // verus!
