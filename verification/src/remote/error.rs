//! Typed agent-service errors. A service returns this enum, not a bare string; on the wire it
//! collapses to `{ error: { message } }` through [`AgentError::message`].
use vstd::prelude::*;
use crate::text::owned;

verus! {

/// Why an agent request could not be served.
#[derive(Clone, PartialEq, Eq, Debug)]
pub enum AgentError {
    /// The request named a method the agent does not serve.
    UnknownMethod(String),
    /// A required parameter was absent from (or the wrong type in) the request.
    MissingParam { method: &'static str, field: &'static str },
    /// A service's underlying operation failed; `detail` is the human-readable cause.
    Service { method: &'static str, detail: String },
}

/// The view of an agent error: its texts as character sequences.
pub enum AgentErrorV {
    UnknownMethod(Seq<char>),
    MissingParam { method: Seq<char>, field: Seq<char> },
    Service { method: Seq<char>, detail: Seq<char> },
}

impl View for AgentError {
    type V = AgentErrorV;

    open spec fn view(&self) -> AgentErrorV {
        match self {
            AgentError::UnknownMethod(m) => AgentErrorV::UnknownMethod(m@),
            AgentError::MissingParam { method, field } => AgentErrorV::MissingParam { method: method@, field: field@ },
            AgentError::Service { method, detail } => AgentErrorV::Service { method: method@, detail: detail@ },
        }
    }
}

/// The human-readable message of an error.
pub open spec fn message_of(e: AgentErrorV) -> Seq<char> {
    match e {
        AgentErrorV::UnknownMethod(m) => "unknown method: "@ + m,
        AgentErrorV::MissingParam { method, field } => method + ": missing `"@ + field + "`"@,
        AgentErrorV::Service { method, detail } => method + ": "@ + detail,
    }
}

/// Append `s` to `out`.
fn append(out: &mut String, s: &str)
    ensures
        final(out)@ == old(out)@ + s@,
{
    out.append(s);
}

impl AgentError {
    /// The human-readable message shown to the peer.
    pub fn message(&self) -> (r: String)
        ensures
            r@ == message_of(self@),
    {
        match self {
            AgentError::UnknownMethod(m) => {
                let mut out = owned("unknown method: ");
                append(&mut out, m.as_str());
                out
            },
            AgentError::MissingParam { method, field } => {
                let mut out = owned(method);
                append(&mut out, ": missing `");
                append(&mut out, field);
                append(&mut out, "`");
                out
            },
            AgentError::Service { method, detail } => {
                let mut out = owned(method);
                append(&mut out, ": ");
                append(&mut out, detail.as_str());
                out
            },
        }
    }
}

} // verus!
