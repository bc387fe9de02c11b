//! The client side of a language-server conversation, apart from its I/O: request ids, the
//! `initialize` handshake, notifications held back until the server is ready, and what each
//! incoming message means. The caller sends the messages this returns and feeds back what
//! arrives.
use vstd::prelude::*;
use crate::json::{json_get, json_i64, json_str, lemma_object_view, Json, JsonNumber, JsonV};
use crate::text::owned;

verus! {

/// A JSON number holding an `i64`, as `serde_json` stores one.
pub open spec fn int_json(n: i64) -> JsonV {
    if n < 0 { JsonV::Number(JsonNumber::NegInt(n)) } else { JsonV::Number(JsonNumber::PosInt(n as u64)) }
}

/// The JSON number of an `i64`.
pub fn int_value(n: i64) -> (r: Json)
    ensures
        r@ == int_json(n),
{
    if n < 0 { Json::Number(JsonNumber::NegInt(n)) } else { Json::Number(JsonNumber::PosInt(n as u64)) }
}

/// A JSON-RPC request: `{ id, jsonrpc: "2.0", method, params }`.
pub open spec fn request_msg(id: i64, method: Seq<char>, params: JsonV) -> JsonV {
    JsonV::Object(
        seq![
            ("id"@, int_json(id)),
            ("jsonrpc"@, JsonV::Str("2.0"@)),
            ("method"@, JsonV::Str(method)),
            ("params"@, params),
        ],
    )
}

/// A JSON-RPC notification: `{ jsonrpc: "2.0", method, params }`.
pub open spec fn notification_msg(method: Seq<char>, params: JsonV) -> JsonV {
    JsonV::Object(seq![("jsonrpc"@, JsonV::Str("2.0"@)), ("method"@, JsonV::Str(method)), ("params"@, params)])
}

/// The empty reply to a server's request: `{ id, jsonrpc: "2.0", result: null }`.
pub open spec fn null_reply_msg(id: JsonV) -> JsonV {
    JsonV::Object(seq![("id"@, id), ("jsonrpc"@, JsonV::Str("2.0"@)), ("result"@, JsonV::Null)])
}

/// The `initialized` notification.
pub open spec fn initialized_msg() -> JsonV {
    notification_msg("initialized"@, JsonV::Object(seq![]))
}

/// Builds a request (see `request_msg`).
pub fn request_message(id: i64, method: &str, params: Json) -> (r: Json)
    ensures
        r@ == request_msg(id, method@, params@),
{
    let v = vec![
        (owned("id"), int_value(id)),
        (owned("jsonrpc"), Json::Str(owned("2.0"))),
        (owned("method"), Json::Str(owned(method))),
        (owned("params"), params),
    ];
    let ghost vv = v@;
    let r = Json::Object(v);
    proof {
        lemma_object_view(r);
        assert(vv.map_values(|e: (String, Json)| (e.0@, e.1@)) =~= request_msg(id, method@, params@)->Object_0);
    }
    r
}

/// Builds a notification (see `notification_msg`).
pub fn notification_message(method: &str, params: Json) -> (r: Json)
    ensures
        r@ == notification_msg(method@, params@),
{
    let v = vec![
        (owned("jsonrpc"), Json::Str(owned("2.0"))),
        (owned("method"), Json::Str(owned(method))),
        (owned("params"), params),
    ];
    let ghost vv = v@;
    let r = Json::Object(v);
    proof {
        lemma_object_view(r);
        assert(vv.map_values(|e: (String, Json)| (e.0@, e.1@)) =~= notification_msg(method@, params@)->Object_0);
    }
    r
}

/// Builds the empty reply to a server's request (see `null_reply_msg`).
pub fn null_reply(id: Json) -> (r: Json)
    ensures
        r@ == null_reply_msg(id@),
{
    let v = vec![(owned("id"), id), (owned("jsonrpc"), Json::Str(owned("2.0"))), (owned("result"), Json::Null)];
    let ghost vv = v@;
    let r = Json::Object(v);
    proof {
        lemma_object_view(r);
        assert(vv.map_values(|e: (String, Json)| (e.0@, e.1@)) =~= null_reply_msg(id@)->Object_0);
    }
    r
}

/// What an incoming message is.
#[derive(Debug)]
pub enum Incoming {
    /// A request from the server; the id to answer.
    ServerRequest(Json),
    /// A `textDocument/publishDiagnostics` notification; its params.
    Diagnostics(Json),
    /// The reply to one of our requests other than `initialize`: its id and result.
    Response(i64, Json),
    /// The reply to our `initialize` request.
    InitResponse,
    /// Anything else (log messages, progress, ...).
    Other,
}

/// The view of an `Incoming`.
pub enum IncomingV {
    ServerRequest(JsonV),
    Diagnostics(JsonV),
    Response(i64, JsonV),
    InitResponse,
    Other,
}

impl View for Incoming {
    type V = IncomingV;

    open spec fn view(&self) -> IncomingV {
        match self {
            Incoming::ServerRequest(j) => IncomingV::ServerRequest(j@),
            Incoming::Diagnostics(j) => IncomingV::Diagnostics(j@),
            Incoming::Response(id, j) => IncomingV::Response(*id, j@),
            Incoming::InitResponse => IncomingV::InitResponse,
            Incoming::Other => IncomingV::Other,
        }
    }
}

/// What a message is: with a string `method` and an `id` it is a request from the server; a
/// `publishDiagnostics` notification with `params` carries diagnostics; other notifications are
/// nothing to act on; without a `method`, an integer `id` with a `result` is a reply, the
/// handshake's when the id is `init_id`.
pub open spec fn classify_of(msg: JsonV, init_id: i64) -> IncomingV {
    match json_get(msg, "method"@) {
        Some(m) if json_str(m) is Some => {
            if json_get(msg, "id"@) is Some {
                IncomingV::ServerRequest(json_get(msg, "id"@)->0)
            } else if json_str(m)->0 == "textDocument/publishDiagnostics"@ {
                match json_get(msg, "params"@) {
                    Some(p) => IncomingV::Diagnostics(p),
                    None => IncomingV::Other,
                }
            } else {
                IncomingV::Other
            }
        },
        _ => match json_get(msg, "id"@) {
            Some(i) if json_i64(i) is Some && json_get(msg, "result"@) is Some => {
                if json_i64(i)->0 == init_id {
                    IncomingV::InitResponse
                } else {
                    IncomingV::Response(json_i64(i)->0, json_get(msg, "result"@)->0)
                }
            },
            _ => IncomingV::Other,
        },
    }
}

/// Classifies an incoming message (see `classify_of`).
pub fn classify(msg: &Json, init_id: i64) -> (r: Incoming)
    ensures
        r@ == classify_of(msg@, init_id),
{
    let is_method = match msg.get("method") {
        Some(m) => m.as_str().is_some(),
        None => false,
    };
    if is_method {
        if let Some(id) = msg.get("id") {
            return Incoming::ServerRequest(id.copy());
        }
        let m = msg.get("method").unwrap().as_str().unwrap();
        if crate::text::str_equal(m, "textDocument/publishDiagnostics") {
            return match msg.get("params") {
                Some(p) => Incoming::Diagnostics(p.copy()),
                None => Incoming::Other,
            };
        }
        return Incoming::Other;
    }
    match msg.get("id") {
        Some(i) => match i.as_i64() {
            Some(id) => match msg.get("result") {
                Some(res) => if id == init_id {
                    Incoming::InitResponse
                } else {
                    Incoming::Response(id, res.copy())
                },
                None => Incoming::Other,
            },
            None => Incoming::Other,
        },
        None => Incoming::Other,
    }
}

/// The conversation state: the next request id, the id of the `initialize` request, whether the
/// server is ready, and the notifications held back until it is.
pub struct LspSession {
    pub next_id: i64,
    pub init_id: i64,
    pub ready: bool,
    pub pending: Vec<Json>,
}

/// The view of a session.
pub struct SessionV {
    pub next_id: i64,
    pub init_id: i64,
    pub ready: bool,
    pub pending: Seq<JsonV>,
}

impl View for LspSession {
    type V = SessionV;

    open spec fn view(&self) -> SessionV {
        SessionV {
            next_id: self.next_id,
            init_id: self.init_id,
            ready: self.ready,
            pending: self.pending@.map_values(|j: Json| j@),
        }
    }
}

/// A notification: the session after it, and what to send now (nothing while the server is not
/// ready: the message is held back).
pub open spec fn notify_step(s: SessionV, msg: JsonV) -> (SessionV, Option<JsonV>) {
    if s.ready {
        (s, Some(msg))
    } else {
        (SessionV { pending: s.pending.push(msg), ..s }, None)
    }
}

/// The reply to `initialize`: the session turns ready and sends `initialized`, then every held
/// notification in order; a second reply does nothing.
pub open spec fn ready_step(s: SessionV) -> (SessionV, Seq<JsonV>) {
    if s.ready {
        (s, seq![])
    } else {
        (SessionV { ready: true, pending: seq![], ..s }, seq![initialized_msg()] + s.pending)
    }
}

impl LspSession {
    /// A fresh session: request ids start at 1, nothing held, not ready.
    pub fn new() -> (s: LspSession)
        ensures
            s@ == (SessionV { next_id: 1, init_id: 0, ready: false, pending: seq![] }),
    {
        let s = LspSession { next_id: 1, init_id: 0, ready: false, pending: Vec::new() };
        assert(s@.pending =~= Seq::<JsonV>::empty());
        s
    }

    /// A request: its id (the next one) and the message to send.
    pub fn request(&mut self, method: &str, params: Json) -> (r: (i64, Json))
        requires
            old(self).next_id < i64::MAX,
        ensures
            r.0 == old(self).next_id,
            r.1@ == request_msg(r.0, method@, params@),
            final(self)@ == (SessionV { next_id: (old(self).next_id + 1) as i64, ..old(self)@ }),
    {
        let id = self.next_id;
        self.next_id = self.next_id + 1;
        (id, request_message(id, method, params))
    }

    /// The `initialize` request with `params`; its id is remembered to recognise the reply.
    pub fn initialize(&mut self, params: Json) -> (msg: Json)
        requires
            old(self).next_id < i64::MAX,
        ensures
            msg@ == request_msg(old(self).next_id, "initialize"@, params@),
            final(self)@ == (SessionV {
                next_id: (old(self).next_id + 1) as i64,
                init_id: old(self).next_id,
                ..old(self)@
            }),
    {
        let (id, msg) = self.request("initialize", params);
        self.init_id = id;
        msg
    }

    /// A notification (see `notify_step`).
    pub fn notify(&mut self, method: &str, params: Json) -> (r: Option<Json>)
        ensures
            (final(self)@, match r {
                Some(m) => Some(m@),
                None => None,
            }) == notify_step(old(self)@, notification_msg(method@, params@)),
    {
        let msg = notification_message(method, params);
        if self.ready {
            Some(msg)
        } else {
            let ghost before = self@.pending;
            let ghost mv = msg@;
            self.pending.push(msg);
            assert(self@.pending =~= before.push(mv));
            None
        }
    }

    /// The reply to `initialize` arrived (see `ready_step`): the messages to send, in order.
    pub fn become_ready(&mut self) -> (out: Vec<Json>)
        ensures
            (final(self)@, out@.map_values(|j: Json| j@)) == ready_step(old(self)@),
    {
        if self.ready {
            let v: Vec<Json> = Vec::new();
            assert(v@.map_values(|j: Json| j@) =~= Seq::<JsonV>::empty());
            return v;
        }
        self.ready = true;
        let empty = Json::Object(Vec::new());
        assert(empty@->Object_0 =~= Seq::<(Seq<char>, JsonV)>::empty());
        let mut out = vec![notification_message("initialized", empty)];
        let ghost p = self@.pending;
        let mut held: Vec<Json> = Vec::new();
        std::mem::swap(&mut held, &mut self.pending);
        assert(held@.map_values(|j: Json| j@) == p);
        let ghost first = out@.map_values(|j: Json| j@);
        out.append(&mut held);
        assert(out@.map_values(|j: Json| j@) =~= first + p);
        assert(self@.pending =~= Seq::<JsonV>::empty());
        out
    }
}

/// The messages a sequence of notifications sends and the session it leaves.
pub open spec fn notify_all(s: SessionV, msgs: Seq<JsonV>) -> (SessionV, Seq<JsonV>)
    decreases msgs.len(),
{
    if msgs.len() == 0 {
        (s, seq![])
    } else {
        let (s1, out1) = notify_all(s, msgs.drop_last());
        let (s2, o) = notify_step(s1, msgs.last());
        (s2, out1 + match o {
            Some(m) => seq![m],
            None => seq![],
        })
    }
}

/// Law: notifications issued before the server is ready are sent nowhere until the reply to
/// `initialize`, which then sends `initialized` followed by all of them, in the order issued.
pub proof fn law_held_notifications_flush_in_order(s: SessionV, msgs: Seq<JsonV>)
    requires
        !s.ready,
    ensures
        notify_all(s, msgs).1 == Seq::<JsonV>::empty(),
        ready_step(notify_all(s, msgs).0).1 == seq![initialized_msg()] + s.pending + msgs,
        ready_step(notify_all(s, msgs).0).0.ready,
    decreases msgs.len(),
{
    if msgs.len() > 0 {
        law_held_notifications_flush_in_order(s, msgs.drop_last());
        let (s1, _) = notify_all(s, msgs.drop_last());
        lemma_notify_all_keeps(s, msgs.drop_last());
        assert(s1.pending.push(msgs.last()) =~= (s.pending + msgs.drop_last()).push(msgs.last()));
        assert(s.pending + msgs =~= (s.pending + msgs.drop_last()).push(msgs.last()));
        lemma_notify_all_keeps(s, msgs);
    } else {
        assert(s.pending + msgs =~= s.pending);
    }
}

/// Notifying never makes a session ready, and a session that is not ready holds what it had
/// plus every message.
proof fn lemma_notify_all_keeps(s: SessionV, msgs: Seq<JsonV>)
    requires
        !s.ready,
    ensures
        !notify_all(s, msgs).0.ready,
        notify_all(s, msgs).0.pending == s.pending + msgs,
    decreases msgs.len(),
{
    if msgs.len() > 0 {
        lemma_notify_all_keeps(s, msgs.drop_last());
        assert(s.pending + msgs =~= (s.pending + msgs.drop_last()).push(msgs.last()));
    } else {
        assert(s.pending + msgs =~= s.pending);
    }
}

/// Law: once ready, a notification is sent at once and nothing is held.
pub proof fn law_ready_sends_at_once(s: SessionV, msg: JsonV)
    requires
        s.ready,
    ensures
        notify_step(s, msg) == (s, Some(msg)),
{
}

} // verus!
