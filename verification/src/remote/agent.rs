//! The agent side of the remote runtime, apart from its I/O: what each incoming request asks
//! for (a reply at once, a filesystem operation, or the end of the session), and the results the
//! filesystem services answer with. The caller reads the frames, performs the operations and
//! writes the replies.
use vstd::prelude::*;
use crate::json::{json_get, json_str, lemma_array_view, lemma_object_view, Json, JsonNumber, JsonV};
use crate::remote::error::{AgentError, AgentErrorV};
use crate::remote::protocol::PROTOCOL_VERSION;
use crate::text::{owned, str_equal};

verus! {

/// The services the agent offers, as the handshake announces them.
pub fn capabilities() -> (r: Vec<&'static str>)
    ensures
        r@.map_values(|c: &str| c@) == seq!["fs.readFile"@, "fs.writeFile"@, "fs.stat"@, "fs.list"@],
{
    let r = vec!["fs.readFile", "fs.writeFile", "fs.stat", "fs.list"];
    assert(r@.map_values(|c: &str| c@) =~= seq!["fs.readFile"@, "fs.writeFile"@, "fs.stat"@, "fs.list"@]);
    r
}

/// The handshake's result: `{ capabilities: [...], protocolVersion }`.
pub open spec fn initialize_result_of() -> JsonV {
    JsonV::Object(
        seq![
            (
                "capabilities"@,
                JsonV::Array(
                    seq![
                        JsonV::Str("fs.readFile"@),
                        JsonV::Str("fs.writeFile"@),
                        JsonV::Str("fs.stat"@),
                        JsonV::Str("fs.list"@),
                    ],
                ),
            ),
            ("protocolVersion"@, JsonV::Number(JsonNumber::PosInt(PROTOCOL_VERSION as u64))),
        ],
    )
}

/// Builds the handshake's result (see `initialize_result_of`).
pub fn initialize_result() -> (r: Json)
    ensures
        r@ == initialize_result_of(),
{
    let caps = Json::Array(
        vec![
            Json::Str(owned("fs.readFile")),
            Json::Str(owned("fs.writeFile")),
            Json::Str(owned("fs.stat")),
            Json::Str(owned("fs.list")),
        ],
    );
    let ghost cv = caps@;
    proof {
        lemma_array_view(caps);
    }
    assert(caps->Array_0@.map_values(|e: Json| e@) =~= seq![
        JsonV::Str("fs.readFile"@),
        JsonV::Str("fs.writeFile"@),
        JsonV::Str("fs.stat"@),
        JsonV::Str("fs.list"@),
    ]);
    let r = Json::Object(
        vec![
            (owned("capabilities"), caps),
            (owned("protocolVersion"), Json::Number(JsonNumber::PosInt(PROTOCOL_VERSION as u64))),
        ],
    );
    proof {
        lemma_object_view(r);
        assert(r->Object_0@.map_values(|e: (String, Json)| (e.0@, e.1@)) =~= initialize_result_of()->Object_0);
    }
    r
}

/// A filesystem operation that a request asks for.
#[derive(Clone, PartialEq, Eq, Debug)]
pub enum FsOp {
    /// `fs/readFile`: the text of a file.
    ReadFile { path: String },
    /// `fs/writeFile`: write text to a file.
    WriteFile { path: String, content: String },
    /// `fs/stat`: metadata of a path.
    Stat { path: String },
    /// `fs/list`: the entries of a directory.
    List { path: String },
}

/// The view of a filesystem operation.
pub enum FsOpV {
    ReadFile { path: Seq<char> },
    WriteFile { path: Seq<char>, content: Seq<char> },
    Stat { path: Seq<char> },
    List { path: Seq<char> },
}

impl View for FsOp {
    type V = FsOpV;

    open spec fn view(&self) -> FsOpV {
        match self {
            FsOp::ReadFile { path } => FsOpV::ReadFile { path: path@ },
            FsOp::WriteFile { path, content } => FsOpV::WriteFile { path: path@, content: content@ },
            FsOp::Stat { path } => FsOpV::Stat { path: path@ },
            FsOp::List { path } => FsOpV::List { path: path@ },
        }
    }
}

/// What an incoming request asks of the agent.
#[derive(Debug)]
pub enum AgentRequest {
    /// A malformed frame: skip it.
    Skip,
    /// `shutdown`: answer `null` to `id` and end the session.
    Shutdown { id: Json },
    /// Answer `id` with this reply at once.
    Reply { id: Json, reply: Result<Json, AgentError> },
    /// Perform this operation, then answer `id` with its outcome.
    Fs { id: Json, op: FsOp },
}

/// The view of an agent request.
pub enum AgentRequestV {
    Skip,
    Shutdown { id: JsonV },
    Reply { id: JsonV, reply: Result<JsonV, AgentErrorV> },
    Fs { id: JsonV, op: FsOpV },
}

impl View for AgentRequest {
    type V = AgentRequestV;

    open spec fn view(&self) -> AgentRequestV {
        match self {
            AgentRequest::Skip => AgentRequestV::Skip,
            AgentRequest::Shutdown { id } => AgentRequestV::Shutdown { id: id@ },
            AgentRequest::Reply { id, reply } => AgentRequestV::Reply {
                id: id@,
                reply: match reply {
                    Ok(j) => Ok(j@),
                    Err(e) => Err(e@),
                },
            },
            AgentRequest::Fs { id, op } => AgentRequestV::Fs { id: id@, op: op@ },
        }
    }
}

/// A string member of the params, or `MissingParam` naming the method and the field.
pub open spec fn str_param_of(method: Seq<char>, field: Seq<char>, params: JsonV) -> Result<Seq<char>, AgentErrorV> {
    match json_get(params, field) {
        Some(v) if json_str(v) is Some => Ok(json_str(v)->0),
        _ => Err(AgentErrorV::MissingParam { method, field }),
    }
}

/// Reads a string member of the params (see `str_param_of`).
fn str_param(method: &'static str, field: &'static str, params: &Json) -> (r: Result<String, AgentError>)
    ensures
        match r {
            Ok(s) => str_param_of(method@, field@, params@) == Ok::<Seq<char>, AgentErrorV>(s@),
            Err(e) => str_param_of(method@, field@, params@) == Err::<Seq<char>, AgentErrorV>(e@),
        },
{
    match params.get(field) {
        Some(v) => match v.as_str() {
            Some(s) => Ok(owned(s)),
            None => Err(AgentError::MissingParam { method, field }),
        },
        None => Err(AgentError::MissingParam { method, field }),
    }
}

/// What a request asks for: a null message is skipped; `shutdown` ends the session;
/// `initialize` is answered with the handshake; each `fs/...` method needs its string params
/// (`path`, and `content` for a write) and becomes its operation; any other method is answered
/// with `UnknownMethod`. A missing `id` is `null`, a missing `method` the empty text, missing
/// `params` `null`.
pub open spec fn plan_of(msg: JsonV) -> AgentRequestV {
    if msg is Null {
        AgentRequestV::Skip
    } else {
        let id = match json_get(msg, "id"@) {
            Some(i) => i,
            None => JsonV::Null,
        };
        let method = match json_get(msg, "method"@) {
            Some(m) if json_str(m) is Some => json_str(m)->0,
            _ => Seq::empty(),
        };
        let params = match json_get(msg, "params"@) {
            Some(p) => p,
            None => JsonV::Null,
        };
        if method == "shutdown"@ {
            AgentRequestV::Shutdown { id }
        } else if method == "initialize"@ {
            AgentRequestV::Reply { id, reply: Ok(initialize_result_of()) }
        } else if method == "fs/readFile"@ {
            match str_param_of("fs/readFile"@, "path"@, params) {
                Ok(path) => AgentRequestV::Fs { id, op: FsOpV::ReadFile { path } },
                Err(e) => AgentRequestV::Reply { id, reply: Err(e) },
            }
        } else if method == "fs/writeFile"@ {
            match str_param_of("fs/writeFile"@, "path"@, params) {
                Err(e) => AgentRequestV::Reply { id, reply: Err(e) },
                Ok(path) => match str_param_of("fs/writeFile"@, "content"@, params) {
                    Ok(content) => AgentRequestV::Fs { id, op: FsOpV::WriteFile { path, content } },
                    Err(e) => AgentRequestV::Reply { id, reply: Err(e) },
                },
            }
        } else if method == "fs/stat"@ {
            match str_param_of("fs/stat"@, "path"@, params) {
                Ok(path) => AgentRequestV::Fs { id, op: FsOpV::Stat { path } },
                Err(e) => AgentRequestV::Reply { id, reply: Err(e) },
            }
        } else if method == "fs/list"@ {
            match str_param_of("fs/list"@, "path"@, params) {
                Ok(path) => AgentRequestV::Fs { id, op: FsOpV::List { path } },
                Err(e) => AgentRequestV::Reply { id, reply: Err(e) },
            }
        } else {
            AgentRequestV::Reply { id, reply: Err(AgentErrorV::UnknownMethod(method)) }
        }
    }
}

/// Decides what a request asks for (see `plan_of`).
pub fn plan_request(msg: &Json) -> (r: AgentRequest)
    ensures
        r@ == plan_of(msg@),
{
    if let Json::Null = msg {
        return AgentRequest::Skip;
    }
    let id = match msg.get("id") {
        Some(i) => i.copy(),
        None => Json::Null,
    };
    let method: &str = match msg.get("method") {
        Some(m) => match m.as_str() {
            Some(s) => s,
            None => "",
        },
        None => "",
    };
    proof {
        reveal_strlit("");
    }
    let null = Json::Null;
    let params: &Json = match msg.get("params") {
        Some(p) => p,
        None => &null,
    };
    let ghost mv = match json_get(msg@, "method"@) {
        Some(m) if json_str(m) is Some => json_str(m)->0,
        _ => Seq::<char>::empty(),
    };
    let ghost idv = match json_get(msg@, "id"@) {
        Some(i) => i,
        None => JsonV::Null,
    };
    assert(method@ == mv);
    assert(id@ == idv);
    assert(!(msg@ is Null));
    if str_equal(method, "shutdown") {
        return AgentRequest::Shutdown { id };
    }
    if str_equal(method, "initialize") {
        return AgentRequest::Reply { id, reply: Ok(initialize_result()) };
    }
    if str_equal(method, "fs/readFile") {
        return match str_param("fs/readFile", "path", params) {
            Ok(path) => AgentRequest::Fs { id, op: FsOp::ReadFile { path } },
            Err(e) => AgentRequest::Reply { id, reply: Err(e) },
        };
    }
    if str_equal(method, "fs/writeFile") {
        return match str_param("fs/writeFile", "path", params) {
            Err(e) => AgentRequest::Reply { id, reply: Err(e) },
            Ok(path) => match str_param("fs/writeFile", "content", params) {
                Ok(content) => AgentRequest::Fs { id, op: FsOp::WriteFile { path, content } },
                Err(e) => AgentRequest::Reply { id, reply: Err(e) },
            },
        };
    }
    if str_equal(method, "fs/stat") {
        return match str_param("fs/stat", "path", params) {
            Ok(path) => AgentRequest::Fs { id, op: FsOp::Stat { path } },
            Err(e) => AgentRequest::Reply { id, reply: Err(e) },
        };
    }
    if str_equal(method, "fs/list") {
        return match str_param("fs/list", "path", params) {
            Ok(path) => AgentRequest::Fs { id, op: FsOp::List { path } },
            Err(e) => AgentRequest::Reply { id, reply: Err(e) },
        };
    }
    AgentRequest::Reply { id, reply: Err(AgentError::UnknownMethod(owned(method))) }
}

/// An object of one member.
fn single(key: &str, value: Json) -> (r: Json)
    ensures
        r@ == JsonV::Object(seq![(key@, value@)]),
{
    let ghost vv = value@;
    let r = Json::Object(vec![(owned(key), value)]);
    proof {
        lemma_object_view(r);
        assert(r->Object_0@.map_values(|e: (String, Json)| (e.0@, e.1@)) =~= seq![(key@, vv)]);
    }
    r
}

/// The result of `fs/readFile`: `{ content }`.
pub fn read_file_result(content: String) -> (r: Json)
    ensures
        r@ == JsonV::Object(seq![("content"@, JsonV::Str(content@))]),
{
    single("content", Json::Str(content))
}

/// The result of `fs/writeFile`: `{ bytesWritten }`.
pub fn write_file_result(bytes_written: u64) -> (r: Json)
    ensures
        r@ == JsonV::Object(seq![("bytesWritten"@, JsonV::Number(JsonNumber::PosInt(bytes_written)))]),
{
    single("bytesWritten", Json::Number(JsonNumber::PosInt(bytes_written)))
}

/// The result of `fs/stat` for an existing path: `{ exists: true, isDir, isFile, len }`.
pub fn stat_result(is_dir: bool, is_file: bool, len: u64) -> (r: Json)
    ensures
        r@ == JsonV::Object(
            seq![
                ("exists"@, JsonV::Bool(true)),
                ("isDir"@, JsonV::Bool(is_dir)),
                ("isFile"@, JsonV::Bool(is_file)),
                ("len"@, JsonV::Number(JsonNumber::PosInt(len))),
            ],
        ),
{
    let r = Json::Object(
        vec![
            (owned("exists"), Json::Bool(true)),
            (owned("isDir"), Json::Bool(is_dir)),
            (owned("isFile"), Json::Bool(is_file)),
            (owned("len"), Json::Number(JsonNumber::PosInt(len))),
        ],
    );
    proof {
        lemma_object_view(r);
        assert(r->Object_0@.map_values(|e: (String, Json)| (e.0@, e.1@)) =~= seq![
            ("exists"@, JsonV::Bool(true)),
            ("isDir"@, JsonV::Bool(is_dir)),
            ("isFile"@, JsonV::Bool(is_file)),
            ("len"@, JsonV::Number(JsonNumber::PosInt(len))),
        ]);
    }
    r
}

/// The result of `fs/stat` for a missing path, which is no error: `{ exists: false }`.
pub fn stat_missing() -> (r: Json)
    ensures
        r@ == JsonV::Object(seq![("exists"@, JsonV::Bool(false))]),
{
    single("exists", Json::Bool(false))
}

/// One entry of a listing, as `{ isDir, name }`.
pub open spec fn entry_json(name: Seq<char>, is_dir: bool) -> JsonV {
    JsonV::Object(seq![("isDir"@, JsonV::Bool(is_dir)), ("name"@, JsonV::Str(name))])
}

/// The result of `fs/list`: `{ entries: [{ isDir, name }, ...] }`, in the order given.
pub fn list_result(entries: Vec<(String, bool)>) -> (r: Json)
    ensures
        r@ == JsonV::Object(
            seq![("entries"@, JsonV::Array(entries@.map_values(|e: (String, bool)| entry_json(e.0@, e.1))))],
        ),
{
    let mut items: Vec<Json> = Vec::new();
    let mut i: usize = 0;
    while i < entries.len()
        invariant
            i <= entries@.len(),
            items@.map_values(|e: Json| e@) == entries@.take(i as int).map_values(
                |e: (String, bool)| entry_json(e.0@, e.1),
            ),
        decreases entries.len() - i,
    {
        let e = Json::Object(
            vec![(owned("isDir"), Json::Bool(entries[i].1)), (owned("name"), Json::Str(owned(entries[i].0.as_str())))],
        );
        proof {
            lemma_object_view(e);
            assert(e->Object_0@.map_values(|x: (String, Json)| (x.0@, x.1@)) =~= entry_json(
                entries@[i as int].0@,
                entries@[i as int].1,
            )->Object_0);
        }
        let ghost before = items@.map_values(|e: Json| e@);
        let ghost ev = e@;
        items.push(e);
        assert(items@.map_values(|e: Json| e@) =~= before.push(ev));
        assert(entries@.take(i + 1).map_values(|e: (String, bool)| entry_json(e.0@, e.1)) =~= entries@.take(
            i as int,
        ).map_values(|e: (String, bool)| entry_json(e.0@, e.1)).push(entry_json(entries@[i as int].0@, entries@[i as int].1)));
        i += 1;
    }
    assert(entries@.take(entries@.len() as int) =~= entries@);
    let arr = Json::Array(items);
    proof {
        lemma_array_view(arr);
    }
    single("entries", arr)
}

/// A service failure: the method and `{path}: {cause}`.
pub fn service_error(method: &'static str, path: &str, cause: &str) -> (e: AgentError)
    ensures
        e@ == (AgentErrorV::Service { method: method@, detail: path@ + ": "@ + cause@ }),
{
    let mut detail = owned(path);
    detail.append(": ");
    detail.append(cause);
    AgentError::Service { method, detail }
}


/// Law: each filesystem method is planned as its own operation on the `path` it names (and, for a
/// write, the `content`), answered to the request's `id`; `shutdown` ends the session; a
/// method that is none of the agent's is answered with `UnknownMethod` naming it.
pub proof fn law_each_method_plans_its_own_operation(
    msg: JsonV,
    id: JsonV,
    method: Seq<char>,
    params: JsonV,
    path: Seq<char>,
    content: Seq<char>,
)
    requires
        json_get(msg, "id"@) == Some(id),
        json_get(msg, "method"@) == Some(JsonV::Str(method)),
        json_get(msg, "params"@) == Some(params),
        json_get(params, "path"@) == Some(JsonV::Str(path)),
        json_get(params, "content"@) == Some(JsonV::Str(content)),
    ensures
        method == "fs/readFile"@ ==> plan_of(msg) == (AgentRequestV::Fs { id, op: FsOpV::ReadFile { path } }),
        method == "fs/writeFile"@ ==> plan_of(msg) == (AgentRequestV::Fs {
            id,
            op: FsOpV::WriteFile { path, content },
        }),
        method == "fs/stat"@ ==> plan_of(msg) == (AgentRequestV::Fs { id, op: FsOpV::Stat { path } }),
        method == "fs/list"@ ==> plan_of(msg) == (AgentRequestV::Fs { id, op: FsOpV::List { path } }),
        method == "shutdown"@ ==> plan_of(msg) == (AgentRequestV::Shutdown { id }),
        method == "initialize"@ ==> plan_of(msg) == (AgentRequestV::Reply { id, reply: Ok(initialize_result_of()) }),
        method != "shutdown"@ && method != "initialize"@ && method != "fs/readFile"@ && method
            != "fs/writeFile"@ && method != "fs/stat"@ && method != "fs/list"@ ==> plan_of(msg) == (
        AgentRequestV::Reply { id, reply: Err(AgentErrorV::UnknownMethod(method)) }),
{
    reveal_strlit("shutdown");
    reveal_strlit("initialize");
    reveal_strlit("fs/readFile");
    reveal_strlit("fs/writeFile");
    reveal_strlit("fs/stat");
    reveal_strlit("fs/list");
    assert(!(msg is Null));
    assert("fs/list"@ != "fs/stat"@) by {
        assert("fs/list"@[3] != "fs/stat"@[3]);
    }
    assert("fs/readFile"@ != "initialize"@) by {
        assert("fs/readFile"@[0] != "initialize"@[0]);
    }
    assert("fs/readFile"@ != "shutdown"@) by {
        assert("fs/readFile"@[0] != "shutdown"@[0]);
    }
    assert("fs/writeFile"@ != "shutdown"@) by {
        assert("fs/writeFile"@[0] != "shutdown"@[0]);
    }
    assert("fs/writeFile"@ != "initialize"@) by {
        assert("fs/writeFile"@[0] != "initialize"@[0]);
    }
    assert("fs/writeFile"@ != "fs/readFile"@) by {
        assert("fs/writeFile"@[3] != "fs/readFile"@[3]);
    }
    assert("fs/stat"@ != "shutdown"@) by {
        assert("fs/stat"@[0] != "shutdown"@[0]);
    }
    assert("fs/stat"@ != "initialize"@) by {
        assert("fs/stat"@[0] != "initialize"@[0]);
    }
    assert("fs/stat"@ != "fs/readFile"@) by {
        assert("fs/stat"@[3] != "fs/readFile"@[3]);
    }
    assert("fs/stat"@ != "fs/writeFile"@) by {
        assert("fs/stat"@[3] != "fs/writeFile"@[3]);
    }
    assert("fs/list"@ != "shutdown"@) by {
        assert("fs/list"@[0] != "shutdown"@[0]);
    }
    assert("fs/list"@ != "initialize"@) by {
        assert("fs/list"@[0] != "initialize"@[0]);
    }
    assert("fs/list"@ != "fs/readFile"@) by {
        assert("fs/list"@[3] != "fs/readFile"@[3]);
    }
    assert("fs/list"@ != "fs/writeFile"@) by {
        assert("fs/list"@[3] != "fs/writeFile"@[3]);
    }
    assert("initialize"@ != "shutdown"@) by {
        assert("initialize"@[0] != "shutdown"@[0]);
    }
}


/// Law: a filesystem request without a string `path` is not performed: it is answered with
/// `MissingParam` naming its method and `path`.
pub proof fn law_missing_path_is_refused(msg: JsonV, id: JsonV, method: Seq<char>, params: JsonV)
    requires
        json_get(msg, "id"@) == Some(id),
        json_get(msg, "method"@) == Some(JsonV::Str(method)),
        json_get(msg, "params"@) == Some(params),
        !(json_get(params, "path"@) matches Some(JsonV::Str(_))),
        method == "fs/readFile"@ || method == "fs/writeFile"@ || method == "fs/stat"@ || method == "fs/list"@,
    ensures
        plan_of(msg) == (AgentRequestV::Reply {
            id,
            reply: Err(AgentErrorV::MissingParam { method, field: "path"@ }),
        }),
{
    reveal_strlit("shutdown");
    reveal_strlit("initialize");
    reveal_strlit("fs/readFile");
    reveal_strlit("fs/writeFile");
    reveal_strlit("fs/stat");
    reveal_strlit("fs/list");
    assert(!(msg is Null));
    assert("fs/readFile"@ != "shutdown"@) by {
        assert("fs/readFile"@[0] != "shutdown"@[0]);
    }
    assert("fs/readFile"@ != "initialize"@) by {
        assert("fs/readFile"@[0] != "initialize"@[0]);
    }
    assert("fs/writeFile"@ != "shutdown"@) by {
        assert("fs/writeFile"@[0] != "shutdown"@[0]);
    }
    assert("fs/writeFile"@ != "initialize"@) by {
        assert("fs/writeFile"@[0] != "initialize"@[0]);
    }
    assert("fs/writeFile"@ != "fs/readFile"@) by {
        assert("fs/writeFile"@[3] != "fs/readFile"@[3]);
    }
    assert("fs/stat"@ != "shutdown"@) by {
        assert("fs/stat"@[0] != "shutdown"@[0]);
    }
    assert("fs/stat"@ != "initialize"@) by {
        assert("fs/stat"@[0] != "initialize"@[0]);
    }
    assert("fs/stat"@ != "fs/readFile"@) by {
        assert("fs/stat"@[3] != "fs/readFile"@[3]);
    }
    assert("fs/stat"@ != "fs/writeFile"@) by {
        assert("fs/stat"@[3] != "fs/writeFile"@[3]);
    }
    assert("fs/list"@ != "shutdown"@) by {
        assert("fs/list"@[0] != "shutdown"@[0]);
    }
    assert("fs/list"@ != "initialize"@) by {
        assert("fs/list"@[0] != "initialize"@[0]);
    }
    assert("fs/list"@ != "fs/readFile"@) by {
        assert("fs/list"@[3] != "fs/readFile"@[3]);
    }
    assert("fs/list"@ != "fs/writeFile"@) by {
        assert("fs/list"@[3] != "fs/writeFile"@[3]);
    }
    assert("fs/list"@ != "fs/stat"@) by {
        assert("fs/list"@[3] != "fs/stat"@[3]);
    }
}

} // verus!
