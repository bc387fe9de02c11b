use ruse_tui::json::{Json, JsonNumber};
use ruse_tui::remote::agent::{
    capabilities, list_result, plan_request, read_file_result, service_error, stat_missing,
    stat_result, write_file_result, AgentRequest, FsOp,
};
use ruse_tui::remote::client::{file_content, handshake, match_reply, ReplyMatch};
use ruse_tui::remote::error::AgentError;
use ruse_tui::remote::protocol::{negotiate, request, response, PROTOCOL_VERSION};
use ruse_tui::remote::transport::{default_remote_agent_cmd, local_args, ssh_args};

fn conv(v: &serde_json::Value) -> Json {
    match v {
        serde_json::Value::Null => Json::Null,
        serde_json::Value::Bool(b) => Json::Bool(*b),
        serde_json::Value::Number(n) => {
            if let Some(u) = n.as_u64() {
                Json::Number(JsonNumber::PosInt(u))
            } else if let Some(i) = n.as_i64() {
                Json::Number(JsonNumber::NegInt(i))
            } else {
                Json::Number(JsonNumber::Float(n.as_f64().unwrap_or(0.0).to_bits()))
            }
        }
        serde_json::Value::String(s) => Json::Str(s.clone()),
        serde_json::Value::Array(a) => Json::Array(a.iter().map(conv).collect()),
        serde_json::Value::Object(o) => {
            Json::Object(o.iter().map(|(k, v)| (k.clone(), conv(v))).collect())
        }
    }
}

fn j(text: &str) -> Json {
    conv(&serde_json::from_str::<serde_json::Value>(text).unwrap())
}

#[test]
fn negotiate_intersects_and_degrades() {
    let offered = vec!["fs.readFile".to_string(), "search".to_string()];
    assert_eq!(
        negotiate(&["fs.readFile", "git", "search"], &offered),
        vec!["fs.readFile".to_string(), "search".to_string()]
    );
    assert!(negotiate(&["debug"], &offered).is_empty());
}

#[test]
fn negotiate_follows_the_wanted_order() {
    let offered = vec!["b".to_string(), "a".to_string()];
    assert_eq!(negotiate(&["a", "b"], &offered), vec!["a", "b"]);
}

#[test]
fn agent_errors_render_their_messages() {
    assert_eq!(
        AgentError::UnknownMethod("x.y".to_string()).message(),
        "unknown method: x.y"
    );
    assert_eq!(
        AgentError::MissingParam {
            method: "fs.readFile",
            field: "path"
        }
        .message(),
        "fs.readFile: missing `path`"
    );
    assert_eq!(
        AgentError::Service {
            method: "fs.readFile",
            detail: "denied".to_string()
        }
        .message(),
        "fs.readFile: denied"
    );
}

#[test]
fn local_runs_this_binary_agent_subcommand() {
    assert_eq!(local_args(), ["agent"]);
}

#[test]
fn ssh_builds_batchmode_host_then_remote_command() {
    // options BEFORE the host, remote command AFTER it — the ssh(1) argument order.
    assert_eq!(
        ssh_args("build-box", &default_remote_agent_cmd()),
        ["-o", "BatchMode=yes", "build-box", "ruse", "agent"]
    );
}

#[test]
fn envelopes_have_the_wire_shape() {
    assert_eq!(
        request(3, "fs/stat", j(r#"{"path": "/x"}"#)),
        j(r#"{"id": 3, "method": "fs/stat", "params": {"path": "/x"}}"#)
    );
    assert_eq!(
        response(Json::Number(JsonNumber::PosInt(3)), Ok(Json::Null)),
        j(r#"{"id": 3, "result": null}"#)
    );
    assert_eq!(
        response(Json::Null, Err(AgentError::UnknownMethod("nope".to_string()))),
        j(r#"{"error": {"message": "unknown method: nope"}, "id": null}"#)
    );
}

#[test]
fn requests_plan_their_service() {
    match plan_request(&j(r#"{"id": 1, "method": "initialize", "params": {}}"#)) {
        AgentRequest::Reply { id, reply: Ok(r) } => {
            assert_eq!(id, j("1"));
            assert_eq!(
                r,
                j(&format!(
                    r#"{{"protocolVersion": {PROTOCOL_VERSION}, "capabilities": ["fs.readFile", "fs.writeFile", "fs.stat", "fs.list"]}}"#
                ))
            );
        }
        other => panic!("expected the handshake reply, got {other:?}"),
    }
    match plan_request(&j(r#"{"id": 2, "method": "fs/readFile", "params": {"path": "/a"}}"#)) {
        AgentRequest::Fs { op, .. } => assert_eq!(op, FsOp::ReadFile { path: "/a".to_string() }),
        other => panic!("expected a read, got {other:?}"),
    }
    match plan_request(&j(r#"{"id": 3, "method": "fs/writeFile", "params": {"path": "/a"}}"#)) {
        AgentRequest::Reply { reply: Err(e), .. } => {
            assert_eq!(e, AgentError::MissingParam { method: "fs/writeFile", field: "content" });
            assert_eq!(e.message(), "fs/writeFile: missing `content`");
        }
        other => panic!("expected a missing-param error, got {other:?}"),
    }
    match plan_request(&j(r#"{"id": 4, "method": "nope"}"#)) {
        AgentRequest::Reply { reply: Err(e), .. } => {
            assert!(e.message().contains("unknown method"))
        }
        other => panic!("expected an unknown-method error, got {other:?}"),
    }
    assert!(matches!(plan_request(&j(r#"{"id": 5, "method": "shutdown"}"#)), AgentRequest::Shutdown { .. }));
    assert!(matches!(plan_request(&Json::Null), AgentRequest::Skip));
    assert_eq!(capabilities(), ["fs.readFile", "fs.writeFile", "fs.stat", "fs.list"]);
}

#[test]
fn service_results_have_the_wire_shape() {
    assert_eq!(read_file_result("hello".to_string()), j(r#"{"content": "hello"}"#));
    assert_eq!(write_file_result(5), j(r#"{"bytesWritten": 5}"#));
    assert_eq!(
        stat_result(false, true, 5),
        j(r#"{"exists": true, "isDir": false, "isFile": true, "len": 5}"#)
    );
    assert_eq!(stat_missing(), j(r#"{"exists": false}"#));
    assert_eq!(
        list_result(vec![("w.txt".to_string(), false), ("d".to_string(), true)]),
        j(r#"{"entries": [{"isDir": false, "name": "w.txt"}, {"isDir": true, "name": "d"}]}"#)
    );
    assert_eq!(
        service_error("fs/list", "/x", "denied").message(),
        "fs/list: /x: denied"
    );
}

#[test]
fn replies_match_their_call() {
    assert!(matches!(match_reply(&j(r#"{"id": 2, "result": 7}"#), 1), ReplyMatch::Skip));
    assert!(matches!(match_reply(&Json::Null, 1), ReplyMatch::Skip));
    match match_reply(&j(r#"{"id": 1, "result": 7}"#), 1) {
        ReplyMatch::Done(r) => assert_eq!(r, j("7")),
        other => panic!("expected the result, got {other:?}"),
    }
    match match_reply(&j(r#"{"id": 1, "error": {"message": "boom"}}"#), 1) {
        ReplyMatch::Failed(m) => assert_eq!(m, "boom"),
        other => panic!("expected the error, got {other:?}"),
    }
    match match_reply(&j(r#"{"id": 1, "error": {}}"#), 1) {
        ReplyMatch::Failed(m) => assert_eq!(m, "agent error"),
        other => panic!("expected the error, got {other:?}"),
    }
    assert!(matches!(match_reply(&j(r#"{"id": 1}"#), 1), ReplyMatch::Done(Json::Null)));
}

#[test]
fn the_handshake_negotiates_capabilities() {
    let result = j(r#"{"protocolVersion": 1, "capabilities": ["fs.readFile", 3, "fs.stat"]}"#);
    let (v, caps) = handshake(&result, &["fs.stat", "git", "fs.readFile"]);
    assert_eq!(v, 1);
    assert_eq!(caps, vec!["fs.stat".to_string(), "fs.readFile".to_string()]);
    let (v, caps) = handshake(&Json::Null, &["fs.stat"]);
    assert_eq!(v, 0);
    assert!(caps.is_empty());
    assert_eq!(file_content(&j(r#"{"content": "abc"}"#)), "abc");
    assert_eq!(file_content(&Json::Null), "");
}

#[test]
fn a_call_comes_back_as_the_agents_answer() {
    let req = request(7, "fs/stat", j(r#"{"path":"/nonexistent"}"#));
    let id = match plan_request(&req) {
        AgentRequest::Fs { id, .. } => id,
        other => panic!("expected an fs operation, got {other:?}"),
    };
    assert_eq!(id, j("7"));
    let answer = response(id.clone(), Ok(j(r#"{"exists":false}"#)));
    match match_reply(&answer, 7) {
        ReplyMatch::Done(r) => assert_eq!(r, j(r#"{"exists":false}"#)),
        other => panic!("expected the result, got {other:?}"),
    }
    assert!(matches!(match_reply(&answer, 8), ReplyMatch::Skip));
    let failed = response(id, Err(AgentError::UnknownMethod("fs/x".to_string())));
    match match_reply(&failed, 7) {
        ReplyMatch::Failed(m) => assert_eq!(m, "unknown method: fs/x"),
        other => panic!("expected a failure, got {other:?}"),
    }
}
