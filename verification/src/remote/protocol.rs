//! The client↔agent protocol contract: the wire version and the capability negotiation.
use vstd::prelude::*;
use crate::input::history::views;
use crate::json::{lemma_object_view, Json, JsonV};
use crate::lsp::session::{int_json, int_value};
use crate::remote::error::{message_of, AgentError, AgentErrorV};
use crate::text::{owned, str_equal};

verus! {

/// The wire protocol version. Incompatible versions degrade to a smaller negotiated capability
/// set rather than failing the connection.
pub const PROTOCOL_VERSION: u32 = 1;

/// The views of a slice of string slices.
pub open spec fn str_views(v: Seq<&str>) -> Seq<Seq<char>> {
    v.map_values(|s: &str| s@)
}

/// The capabilities of `wanted` that `offered` holds, in the order of `wanted`.
pub open spec fn negotiated(wanted: Seq<Seq<char>>, offered: Seq<Seq<char>>) -> Seq<Seq<char>>
    decreases wanted.len(),
{
    if wanted.len() == 0 {
        seq![]
    } else {
        negotiated(wanted.drop_last(), offered) + (if offered.contains(wanted.last()) {
            seq![wanted.last()]
        } else {
            seq![]
        })
    }
}

/// Whether `offered` holds `w`.
fn offers(offered: &[String], w: &str) -> (r: bool)
    ensures
        r == views(offered@).contains(w@),
{
    let mut i: usize = 0;
    while i < offered.len()
        invariant
            i <= offered@.len(),
            forall|j: int| 0 <= j < i ==> views(offered@)[j] != w@,
        decreases offered.len() - i,
    {
        if str_equal(offered[i].as_str(), w) {
            assert(views(offered@)[i as int] == w@);
            return true;
        }
        i += 1;
    }
    false
}

/// Negotiate the effective capability set: the intersection of what the client WANTS and what
/// the agent OFFERS. A capability the client wants but the agent lacks is silently dropped (a
/// partial set, never a failed connection). Order follows `wanted`.
pub fn negotiate(wanted: &[&str], offered: &[String]) -> (r: Vec<String>)
    ensures
        views(r@) == negotiated(str_views(wanted@), views(offered@)),
{
    let mut out: Vec<String> = Vec::new();
    let n = wanted.len();
    let ghost ws = str_views(wanted@);
    let ghost os = views(offered@);
    let mut i: usize = 0;
    while i < n
        invariant
            i <= n,
            n == wanted@.len(),
            ws == str_views(wanted@),
            os == views(offered@),
            views(out@) == negotiated(ws.take(i as int), os),
        decreases n - i,
    {
        let ghost pre = ws.take(i + 1);
        assert(pre.drop_last() =~= ws.take(i as int));
        assert(pre.last() == wanted@[i as int]@);
        let ghost before = views(out@);
        if offers(offered, wanted[i]) {
            out.push(owned(wanted[i]));
            assert(views(out@) =~= before + seq![wanted@[i as int]@]);
        } else {
            assert(views(out@) =~= before + Seq::<Seq<char>>::empty());
        }
        i += 1;
    }
    assert(ws.take(n as int) =~= ws);
    out
}

/// A request envelope: `{ id, method, params }`.
pub open spec fn request_of(id: i64, method: Seq<char>, params: JsonV) -> JsonV {
    JsonV::Object(seq![("id"@, int_json(id)), ("method"@, JsonV::Str(method)), ("params"@, params)])
}

/// Builds a request envelope (see `request_of`).
pub fn request(id: i64, method: &str, params: Json) -> (r: Json)
    ensures
        r@ == request_of(id, method@, params@),
{
    let v = vec![(owned("id"), int_value(id)), (owned("method"), Json::Str(owned(method))), (owned("params"), params)];
    let r = Json::Object(v);
    proof {
        lemma_object_view(r);
        assert(r->Object_0@.map_values(|e: (String, Json)| (e.0@, e.1@)) =~= request_of(id, method@, params@)->Object_0);
    }
    r
}

/// A response envelope: `{ id, result }` for a result, `{ error: { message }, id }` for an error,
/// whose message is the error's text.
pub open spec fn response_of(id: JsonV, reply: Result<JsonV, AgentErrorV>) -> JsonV {
    match reply {
        Ok(result) => JsonV::Object(seq![("id"@, id), ("result"@, result)]),
        Err(e) => JsonV::Object(
            seq![("error"@, JsonV::Object(seq![("message"@, JsonV::Str(message_of(e)))])), ("id"@, id)],
        ),
    }
}

/// Builds a response envelope (see `response_of`).
pub fn response(id: Json, reply: Result<Json, AgentError>) -> (r: Json)
    ensures
        r@ == response_of(id@, match reply {
            Ok(j) => Ok(j@),
            Err(e) => Err(e@),
        }),
{
    match reply {
        Ok(result) => {
            let ghost idv = id@;
            let ghost rv = result@;
            let r = Json::Object(vec![(owned("id"), id), (owned("result"), result)]);
            proof {
                lemma_object_view(r);
                assert(r->Object_0@.map_values(|e: (String, Json)| (e.0@, e.1@)) =~= seq![("id"@, idv), ("result"@, rv)]);
            }
            r
        },
        Err(e) => {
            let ghost idv = id@;
            let inner = Json::Object(vec![(owned("message"), Json::Str(e.message()))]);
            proof {
                lemma_object_view(inner);
                assert(inner->Object_0@.map_values(|e: (String, Json)| (e.0@, e.1@)) =~= seq![
                    ("message"@, JsonV::Str(message_of(e@))),
                ]);
            }
            let ghost iv = inner@;
            let r = Json::Object(vec![(owned("error"), inner), (owned("id"), id)]);
            proof {
                lemma_object_view(r);
                assert(r->Object_0@.map_values(|e: (String, Json)| (e.0@, e.1@)) =~= seq![("error"@, iv), ("id"@, idv)]);
            }
            r
        },
    }
}

} // verus!
