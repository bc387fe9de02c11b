use ruse_tui::json::{Json, JsonNumber};
use ruse_tui::lsp::session::{classify, null_reply, Incoming, LspSession};
use ruse_tui::lsp::model::Severity;
use ruse_tui::lsp::protocol::{
    apply_resolve, has_resolve_data, parse_code_actions, parse_completion, parse_definition,
    parse_hover, parse_locations, parse_text_edits, parse_workspace_edit, to_diags, LspDiagnostic,
    LspPosition, LspRange, PublishDiagnosticsParams,
};
use ruse_tui::lsp::protocol::{
    code_action_params, completion_params, did_change_params, did_open_params, formatting_params,
    initialize_params, position_params, references_params, rename_params,
};

fn conv(v: &serde_json::Value) -> Json {
    match v {
        serde_json::Value::Null => Json::Null,
        serde_json::Value::Bool(b) => Json::Bool(*b),
        serde_json::Value::Number(n) => {
            if let Some(u) = n.as_u64() {
                Json::Number(JsonNumber::PosInt(u))
            } else if let Some(i) = n.as_i64() {
                Json::Number(JsonNumber::NegInt(i))
            } else {
                Json::Number(JsonNumber::Float(n.as_f64().unwrap_or(0.0).to_bits()))
            }
        }
        serde_json::Value::String(s) => Json::Str(s.clone()),
        serde_json::Value::Array(a) => Json::Array(a.iter().map(conv).collect()),
        serde_json::Value::Object(o) => {
            Json::Object(o.iter().map(|(k, v)| (k.clone(), conv(v))).collect())
        }
    }
}

fn j(text: &str) -> Json {
    conv(&serde_json::from_str::<serde_json::Value>(text).unwrap())
}

fn diagnostic(line: u32, c1: u32, c2: u32, severity: Option<u8>, message: &str) -> LspDiagnostic {
    LspDiagnostic {
        range: LspRange {
            start: LspPosition { line, character: c1 },
            end: LspPosition { line, character: c2 },
        },
        severity,
        message: message.to_string(),
    }
}

#[test]
fn parses_publish_diagnostics_into_byte_ranges() {
    let bytes = b"fn main() {\n    let x = 1\n}\n"; // missing ';' on line 1
    let params = PublishDiagnosticsParams {
        uri: "file:///x.rs".to_string(),
        diagnostics: vec![diagnostic(1, 13, 13, Some(1), "expected `;`")],
    };
    let diags = to_diags(bytes, &params);
    assert_eq!(diags.len(), 1);
    assert_eq!(diags[0].severity, Severity::Error);
    assert_eq!(diags[0].message, "expected `;`");
    // line 1 col 13 = end of "    let x = 1" (13 chars) → the byte just past the '1'.
    let line1 = bytes.iter().position(|&c| c == b'\n').unwrap() + 1;
    assert_eq!(diags[0].start, line1 + 13);
}

#[test]
fn parse_hover_handles_string_markup_and_array() {
    assert_eq!(
        parse_hover(&j(r#"{"contents": "line1\nline2"}"#)),
        Some(vec!["line1".into(), "line2".into()])
    );
    assert_eq!(
        parse_hover(&j(r#"{"contents": {"kind": "markdown", "value": "fn f()"}}"#)),
        Some(vec!["fn f()".into()])
    );
    assert_eq!(
        parse_hover(&j(r#"{"contents": ["a", {"value": "b"}]}"#)),
        Some(vec!["a".into(), "b".into()])
    );
    assert_eq!(parse_hover(&j("{}")), None);
    assert_eq!(parse_hover(&Json::Null), None);
}

#[test]
fn parse_text_edits_reads_ranges_and_text() {
    let edits = j(r#"[
        {"range":{"start":{"line":0,"character":0},"end":{"line":0,"character":4}},"newText":"fn "},
        {"range":{"start":{"line":1,"character":2},"end":{"line":1,"character":2}},"newText":"    "}
    ]"#);
    let parsed = parse_text_edits(&edits);
    assert_eq!(parsed.len(), 2);
    assert_eq!(parsed[0], ((0, 0), (0, 4), "fn ".to_string()));
    assert_eq!(parsed[1], ((1, 2), (1, 2), "    ".to_string()));
    assert!(parse_text_edits(&Json::Null).is_empty());
}

fn te(line: u32, c1: u32, c2: u32, t: &str) -> String {
    format!(
        r#"{{"range":{{"start":{{"line":{line},"character":{c1}}},"end":{{"line":{line},"character":{c2}}}}},"newText":{}}}"#,
        serde_json::to_string(t).unwrap()
    )
}

#[test]
fn parse_workspace_edit_reads_changes_and_document_changes() {
    // `changes` map form.
    let changes = j(&format!(
        r#"{{"changes": {{"file:///a.rs": [{}], "file:///b.rs": [{}]}}}}"#,
        te(0, 4, 7, "bar"),
        te(0, 0, 3, "bar")
    ));
    let mut parsed = parse_workspace_edit(&changes);
    parsed.sort_by(|a, b| a.0.cmp(&b.0));
    assert_eq!(parsed.len(), 2);
    assert_eq!(parsed[0].0, "file:///a.rs");
    assert_eq!(parsed[0].1, vec![((0, 4), (0, 7), "bar".to_string())]);
    assert_eq!(parsed[1].0, "file:///b.rs");
    // `documentChanges` array form.
    let docs = j(&format!(
        r#"{{"documentChanges": [{{"textDocument": {{"uri": "file:///a.rs", "version": 1}}, "edits": [{}]}}]}}"#,
        te(0, 4, 7, "baz")
    ));
    let parsed = parse_workspace_edit(&docs);
    assert_eq!(parsed.len(), 1);
    assert_eq!(parsed[0].0, "file:///a.rs");
    assert_eq!(parsed[0].1, vec![((0, 4), (0, 7), "baz".to_string())]);
    // A resource operation (no `edits`) is skipped; null → empty.
    let rename_op = j(
        r#"{"documentChanges": [{"kind": "rename", "oldUri": "file:///a.rs", "newUri": "file:///c.rs"}]}"#,
    );
    assert!(parse_workspace_edit(&rename_op).is_empty());
    assert!(parse_workspace_edit(&Json::Null).is_empty());
}

#[test]
fn parse_completion_handles_list_array_snippet_and_null() {
    // CompletionList form; insertText overrides label.
    let list = j(r#"{"isIncomplete": false, "items": [
        {"label": "width", "insertText": "width", "detail": "fn width(&self) -> u16"},
        {"label": "with_capacity", "kind": 3}
    ]}"#);
    let items = parse_completion(&list);
    assert_eq!(items.len(), 2);
    assert_eq!(items[0].label, "width");
    assert_eq!(items[0].detail.as_deref(), Some("fn width(&self) -> u16"));
    assert_eq!(items[1].insert, "with_capacity"); // no insertText → label
    // Bare array form + a textEdit-driven insert.
    let arr = j(r#"[{"label": "foo", "textEdit": {"range": {}, "newText": "foo()"}}]"#);
    let foo = &parse_completion(&arr)[0];
    assert_eq!(foo.insert, "foo()");
    assert!(!foo.snippet, "a plain item is not a snippet");
    // Snippet item (insertTextFormat 2): keep the raw BODY + flag it (the accept path expands it).
    let snip = j(r#"[{"label": "println!", "insertText": "println!(\"$1\")$0", "insertTextFormat": 2}]"#);
    let s = &parse_completion(&snip)[0];
    assert_eq!(s.insert, "println!(\"$1\")$0");
    assert!(s.snippet);
    assert!(parse_completion(&Json::Null).is_empty());
}

#[test]
fn resolve_merges_extras_without_touching_insert() {
    // An item with `data` is resolvable; one without is used as-is (fallback).
    let items = parse_completion(&j(r#"[
        {"label": "HashMap", "insertText": "HashMap", "data": {"id": 7}},
        {"label": "plain", "insertText": "plain"}
    ]"#));
    let (mut hm, plain) = (items[0].clone(), items[1].clone());
    assert!(has_resolve_data(&hm));
    assert!(!has_resolve_data(&plain));

    // Resolve fills detail + documentation + additionalTextEdits (auto-import), never the insert text.
    let resolved = j(r#"{
        "label": "HashMap",
        "detail": "struct std::collections::HashMap",
        "documentation": {"kind": "markdown", "value": "A hash map."},
        "insertText": "SHOULD_BE_IGNORED",
        "additionalTextEdits": [
            {"range": {"start": {"line":0,"character":0}, "end": {"line":0,"character":0}},
             "newText": "use std::collections::HashMap;\n"}
        ]
    }"#);
    apply_resolve(&mut hm, &resolved);
    assert!(hm.resolved);
    assert_eq!(hm.detail.as_deref(), Some("struct std::collections::HashMap"));
    assert_eq!(hm.documentation.as_deref(), Some("A hash map."));
    assert_eq!(hm.insert, "HashMap", "resolve must NOT change the insert text");
    assert_eq!(hm.additional[0].1.len(), 1); // the import edit

    // A null / non-object result is a no-op beyond marking resolved (fallback keeps the original).
    let mut p2 = plain.clone();
    apply_resolve(&mut p2, &Json::Null);
    assert!(p2.resolved);
    assert_eq!(p2.detail, plain.detail);
    assert_eq!(p2.insert, "plain");
}

#[test]
fn parse_definition_handles_location_array_and_link() {
    let loc_text = r#"{"uri":"file:///a.rs","range":{"start":{"line":3,"character":5},"end":{"line":3,"character":9}}}"#;
    let loc = j(loc_text);
    assert_eq!(parse_definition(&loc), Some(("file:///a.rs".into(), 3, 5)));
    assert_eq!(
        parse_definition(&j(&format!("[{loc_text}]"))),
        Some(("file:///a.rs".into(), 3, 5))
    );
    let link = j(r#"[{
        "targetUri":"file:///b.rs",
        "targetSelectionRange":{"start":{"line":7,"character":2},"end":{"line":7,"character":8}}
    }]"#);
    assert_eq!(parse_definition(&link), Some(("file:///b.rs".into(), 7, 2)));
    assert_eq!(parse_definition(&j("[]")), None);
    assert_eq!(parse_definition(&Json::Null), None);
}

#[test]
fn parse_code_actions_keeps_edit_and_command_actions() {
    let result = j(&format!(
        r#"[
        {{"title": "Import Foo", "kind": "quickfix",
         "edit": {{"changes": {{"file:///a.rs": [{}]}}}}}},
        {{"title": "Run rustfmt", "command": {{"title": "fmt", "command": "rust-analyzer.fmt", "arguments": [1, 2]}}}},
        {{"title": "Reload", "command": "rust-analyzer.reload", "arguments": ["x"]}},
        {{"title": "Nothing"}}
    ]"#,
        te(3, 0, 0, "use x::Foo;\n")
    ));
    let actions = parse_code_actions(&result);
    assert_eq!(actions.len(), 3, "edit-only + command-only(x2) kept; empty dropped");
    assert_eq!(actions[0].title, "Import Foo");
    assert_eq!(actions[0].edit[0].0, "file:///a.rs");
    assert!(actions[0].command.is_none());
    assert_eq!(actions[1].command.as_ref().unwrap().0, "rust-analyzer.fmt");
    assert_eq!(actions[1].command.as_ref().unwrap().1.len(), 2); // arguments
    assert!(actions[1].edit.is_empty());
    assert_eq!(actions[2].command.as_ref().unwrap().0, "rust-analyzer.reload");
    assert!(parse_code_actions(&Json::Null).is_empty());
    assert!(parse_code_actions(&j("[]")).is_empty());
}

#[test]
fn parse_locations_collects_every_reference() {
    let locs = j(r#"[
        {"uri":"file:///a.rs","range":{"start":{"line":1,"character":4},"end":{"line":1,"character":7}}},
        {"uri":"file:///b.rs","range":{"start":{"line":9,"character":0},"end":{"line":9,"character":3}}}
    ]"#);
    let got = parse_locations(&locs);
    assert_eq!(got.len(), 2);
    assert_eq!(got[0], ("file:///a.rs".into(), 1, 4));
    assert_eq!(got[1], ("file:///b.rs".into(), 9, 0));
    // A single bare Location → one entry; null → none.
    let first = match &locs {
        Json::Array(a) => a[0].clone(),
        _ => unreachable!(),
    };
    assert_eq!(parse_locations(&first).len(), 1);
    assert!(parse_locations(&Json::Null).is_empty());
}

#[test]
fn missing_severity_defaults_to_error() {
    let params = PublishDiagnosticsParams {
        uri: "file:///x.rs".to_string(),
        diagnostics: vec![diagnostic(0, 0, 1, None, "oops")],
    };
    assert_eq!(to_diags(b"x", &params)[0].severity, Severity::Error);
}

#[test]
fn hover_lines_drop_crlf_and_keep_empty_middle_lines() {
    assert_eq!(
        parse_hover(&j(r#"{"contents": "a\r\n\nb\n"}"#)),
        Some(vec!["a".into(), "".into(), "b".into()])
    );
    assert_eq!(parse_hover(&j(r#"{"contents": ""}"#)), None);
    assert_eq!(parse_hover(&j(r#"{"contents": [1, 2]}"#)), None);
}

#[test]
fn json_accessors() {
    let v = j(r#"{"a": 1, "b": -2, "c": 1.5, "d": "s", "e": [true, null]}"#);
    assert_eq!(v.get("a").unwrap().as_u64(), Some(1));
    assert_eq!(v.get("b").unwrap().as_u64(), None);
    assert_eq!(v.get("b").unwrap().as_i64(), Some(-2));
    assert_eq!(v.get("c").unwrap().as_i64(), None);
    assert_eq!(v.get("d").unwrap().as_str(), Some("s"));
    assert_eq!(v.get("e").unwrap().as_array().unwrap().len(), 2);
    assert!(v.get("zz").is_none());
    assert!(v.is_object());
    assert!(Json::Null.get("a").is_none());
    assert_eq!(v.clone(), v);
}

#[test]
fn classify_init_response_diagnostics_and_requests() {
    // The initialize response (id matches, has a result) → InitResponse.
    let init = j(r#"{"jsonrpc":"2.0","id":7,"result":{"capabilities":{}}}"#);
    assert!(matches!(classify(&init, 7), Incoming::InitResponse));
    // A different id / no result is not the init response.
    assert!(matches!(classify(&j(r#"{"id":7}"#), 7), Incoming::Other));
    // A non-init response is correlated by id.
    assert!(matches!(
        classify(&j(r#"{"jsonrpc":"2.0","id":9,"result":{"x":1}}"#), 7),
        Incoming::Response(9, _)
    ));
    // A server→client request (method + id) → reply.
    let req = j(r#"{"jsonrpc":"2.0","id":"cfg","method":"workspace/configuration","params":{}}"#);
    assert!(matches!(classify(&req, 7), Incoming::ServerRequest(_)));
    // publishDiagnostics → its params.
    let diag = j(r#"{
        "jsonrpc":"2.0","method":"textDocument/publishDiagnostics",
        "params":{"uri":"file:///x.rs","diagnostics":[]}
    }"#);
    assert!(matches!(classify(&diag, 7), Incoming::Diagnostics(_)));
    // A plain notification we don't handle → Other.
    let log = j(r#"{"jsonrpc":"2.0","method":"window/logMessage","params":{}}"#);
    assert!(matches!(classify(&log, 7), Incoming::Other));
}

#[test]
fn classify_and_parse_every_response_shape() {
    let init_id = 1;
    let result_of = |id: i64, result: &str| -> Json {
        let msg = j(&format!(r#"{{"jsonrpc": "2.0", "id": {id}, "result": {result}}}"#));
        match classify(&msg, init_id) {
            Incoming::Response(got, r) => {
                assert_eq!(got, id, "response id correlates");
                r
            }
            _ => panic!("expected a Response for id {id}"),
        }
    };
    let loc = |uri: &str| {
        format!(
            r#"{{"uri": "{uri}", "range": {{"start": {{"line": 0, "character": 0}}, "end": {{"line": 0, "character": 1}}}}}}"#
        )
    };
    let te = r#"{"range": {"start": {"line":0,"character":0}, "end": {"line":0,"character":1}}, "newText": "X"}"#;

    assert!(parse_hover(&result_of(2, r#"{"contents": "T"}"#)).is_some());
    assert_eq!(
        parse_definition(&result_of(3, &loc("file:///d.rs"))),
        Some(("file:///d.rs".into(), 0, 0))
    );
    assert_eq!(
        parse_locations(&result_of(4, &format!("[{}, {}]", loc("file:///a.rs"), loc("file:///b.rs")))).len(),
        2
    );
    assert_eq!(parse_completion(&result_of(5, r#"{"items": [{"label": "foo"}]}"#)).len(), 1);
    assert_eq!(parse_text_edits(&result_of(6, &format!("[{te}]"))).len(), 1);
    assert_eq!(
        parse_workspace_edit(&result_of(7, &format!(r#"{{"changes": {{"file:///a.rs": [{te}]}}}}"#))).len(),
        1
    );
    assert_eq!(
        parse_code_actions(&result_of(
            8,
            &format!(r#"[{{"title": "Fix", "edit": {{"changes": {{"file:///a.rs": [{te}]}}}}}}]"#)
        ))
        .len(),
        1
    );
}

#[test]
fn notifications_wait_for_the_handshake() {
    let mut s = LspSession::new();
    let init = s.initialize(j("{}"));
    assert_eq!(init, j(r#"{"id": 1, "jsonrpc": "2.0", "method": "initialize", "params": {}}"#));
    assert_eq!(s.init_id, 1);
    // Before the reply, notifications are held.
    assert!(s.notify("textDocument/didOpen", j(r#"{"a": 1}"#)).is_none());
    assert!(s.notify("textDocument/didChange", j(r#"{"b": 2}"#)).is_none());
    let (id, req) = s.request("textDocument/hover", Json::Null);
    assert_eq!(id, 2);
    assert_eq!(req.get("id").unwrap().as_i64(), Some(2));
    // The reply to `initialize` releases `initialized`, then the held notifications in order.
    let out = s.become_ready();
    assert_eq!(out.len(), 3);
    assert_eq!(out[0], j(r#"{"jsonrpc": "2.0", "method": "initialized", "params": {}}"#));
    assert_eq!(out[1].get("method").unwrap().as_str(), Some("textDocument/didOpen"));
    assert_eq!(out[2].get("method").unwrap().as_str(), Some("textDocument/didChange"));
    assert!(s.pending.is_empty());
    // Once ready, a notification goes out at once; a second reply releases nothing.
    assert!(s.notify("textDocument/didSave", Json::Null).is_some());
    assert!(s.become_ready().is_empty());
}

#[test]
fn server_requests_get_a_null_reply() {
    assert_eq!(
        null_reply(Json::Str("cfg".to_string())),
        j(r#"{"id": "cfg", "jsonrpc": "2.0", "result": null}"#)
    );
}

#[test]
fn initialize_params_announce_root_and_capabilities() {
    assert_eq!(
        initialize_params(4242, "file:///work"),
        j(r#"{"processId":4242,"rootUri":"file:///work","capabilities":{"textDocument":{
            "publishDiagnostics":{"relatedInformation":false},"synchronization":{"didSave":false}}}}"#)
    );
}

#[test]
fn document_sync_params() {
    assert_eq!(
        did_open_params("file:///a.rs", "rust", 1, "fn main() {}\n"),
        j(r#"{"textDocument":{"uri":"file:///a.rs","languageId":"rust","version":1,"text":"fn main() {}\n"}}"#)
    );
    assert_eq!(
        did_change_params("file:///a.rs", 2, "x"),
        j(r#"{"textDocument":{"uri":"file:///a.rs","version":2},"contentChanges":[{"text":"x"}]}"#)
    );
    assert_eq!(
        did_change_params("file:///a.rs", -3, ""),
        j(r#"{"textDocument":{"uri":"file:///a.rs","version":-3},"contentChanges":[{"text":""}]}"#)
    );
}

#[test]
fn position_shaped_params() {
    let expected = j(r#"{"textDocument":{"uri":"file:///b.rs"},"position":{"line":3,"character":7}}"#);
    assert_eq!(position_params("file:///b.rs", 3, 7), expected);
    assert_eq!(completion_params("file:///b.rs", 3, 7), expected);
    assert_eq!(
        rename_params("file:///b.rs", 1, 4, "y"),
        j(r#"{"textDocument":{"uri":"file:///b.rs"},"position":{"line":1,"character":4},"newName":"y"}"#)
    );
    assert_eq!(
        references_params("file:///b.rs", 1, 4, true),
        j(r#"{"textDocument":{"uri":"file:///b.rs"},"position":{"line":1,"character":4},
            "context":{"includeDeclaration":true}}"#)
    );
}

#[test]
fn formatting_and_code_action_params() {
    assert_eq!(
        formatting_params("file:///c.rs", 4, true),
        j(r#"{"textDocument":{"uri":"file:///c.rs"},"options":{"tabSize":4,"insertSpaces":true}}"#)
    );
    assert_eq!(
        code_action_params("file:///c.rs", 2, 5, Json::Array(Vec::new())),
        j(r#"{"textDocument":{"uri":"file:///c.rs"},"range":{"start":{"line":2,"character":5},
            "end":{"line":2,"character":5}},"context":{"diagnostics":[]}}"#)
    );
}
