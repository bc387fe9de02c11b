//! The params of the requests and notifications the client sends, as JSON values. Object keys
//! are listed in sorted order, the order in which `serde_json` writes them.
use vstd::prelude::*;
use crate::json::{lemma_array_view, lemma_object_view, Json, JsonNumber, JsonV};
use crate::lsp::session::{int_json, int_value};
use crate::text::owned;

verus! {

/// A JSON number holding an unsigned integer.
pub open spec fn uint_json(n: u64) -> JsonV {
    JsonV::Number(JsonNumber::PosInt(n))
}

/// A JSON object with one field.
pub open spec fn obj1(k1: Seq<char>, v1: JsonV) -> JsonV {
    JsonV::Object(seq![(k1, v1)])
}

/// A JSON object with two fields.
pub open spec fn obj2(k1: Seq<char>, v1: JsonV, k2: Seq<char>, v2: JsonV) -> JsonV {
    JsonV::Object(seq![(k1, v1), (k2, v2)])
}

/// A JSON object with three fields.
pub open spec fn obj3(k1: Seq<char>, v1: JsonV, k2: Seq<char>, v2: JsonV, k3: Seq<char>, v3: JsonV) -> JsonV {
    JsonV::Object(seq![(k1, v1), (k2, v2), (k3, v3)])
}

/// `{ uri }`: a text document identifier.
pub open spec fn doc_id_json(uri: Seq<char>) -> JsonV {
    obj1("uri"@, JsonV::Str(uri))
}

/// `{ character, line }`: a position.
pub open spec fn position_json(line: u32, character: u32) -> JsonV {
    obj2("character"@, uint_json(character as u64), "line"@, uint_json(line as u64))
}

/// `initialize` params: the process id, the workspace root and the client's (minimal)
/// capabilities.
pub open spec fn initialize_json(process_id: u32, root_uri: Seq<char>) -> JsonV {
    obj3(
        "capabilities"@,
        obj1(
            "textDocument"@,
            obj2(
                "publishDiagnostics"@,
                obj1("relatedInformation"@, JsonV::Bool(false)),
                "synchronization"@,
                obj1("didSave"@, JsonV::Bool(false)),
            ),
        ),
        "processId"@,
        uint_json(process_id as u64),
        "rootUri"@,
        JsonV::Str(root_uri),
    )
}

/// `textDocument/didOpen` params.
pub open spec fn did_open_json(uri: Seq<char>, language_id: Seq<char>, version: i64, text: Seq<char>) -> JsonV {
    obj1(
        "textDocument"@,
        JsonV::Object(
            seq![
                ("languageId"@, JsonV::Str(language_id)),
                ("text"@, JsonV::Str(text)),
                ("uri"@, JsonV::Str(uri)),
                ("version"@, int_json(version)),
            ],
        ),
    )
}

/// `textDocument/didChange` params: the whole new text as one change.
pub open spec fn did_change_json(uri: Seq<char>, version: i64, text: Seq<char>) -> JsonV {
    obj2(
        "contentChanges"@,
        JsonV::Array(seq![obj1("text"@, JsonV::Str(text))]),
        "textDocument"@,
        obj2("uri"@, JsonV::Str(uri), "version"@, int_json(version)),
    )
}

/// `{ position, textDocument }`, the params of hover, definition and completion.
pub open spec fn position_params_json(uri: Seq<char>, line: u32, character: u32) -> JsonV {
    obj2("position"@, position_json(line, character), "textDocument"@, doc_id_json(uri))
}

/// `textDocument/formatting` params: the document and the indent options.
pub open spec fn formatting_json(uri: Seq<char>, tab_size: u32, insert_spaces: bool) -> JsonV {
    obj2(
        "options"@,
        obj2("insertSpaces"@, JsonV::Bool(insert_spaces), "tabSize"@, uint_json(tab_size as u64)),
        "textDocument"@,
        doc_id_json(uri),
    )
}

/// `textDocument/rename` params: the symbol's position and the new name.
pub open spec fn rename_json(uri: Seq<char>, line: u32, character: u32, new_name: Seq<char>) -> JsonV {
    obj3(
        "newName"@,
        JsonV::Str(new_name),
        "position"@,
        position_json(line, character),
        "textDocument"@,
        doc_id_json(uri),
    )
}

/// `textDocument/codeAction` params: an empty range at the cursor and the diagnostics there.
pub open spec fn code_action_json(uri: Seq<char>, line: u32, character: u32, diagnostics: JsonV) -> JsonV {
    obj3(
        "context"@,
        obj1("diagnostics"@, diagnostics),
        "range"@,
        obj2("end"@, position_json(line, character), "start"@, position_json(line, character)),
        "textDocument"@,
        doc_id_json(uri),
    )
}

/// `textDocument/references` params: the symbol's position and whether to count its
/// declaration.
pub open spec fn references_json(uri: Seq<char>, line: u32, character: u32, include_declaration: bool) -> JsonV {
    obj3(
        "context"@,
        obj1("includeDeclaration"@, JsonV::Bool(include_declaration)),
        "position"@,
        position_json(line, character),
        "textDocument"@,
        doc_id_json(uri),
    )
}

fn object1(k1: &str, v1: Json) -> (r: Json)
    ensures
        r@ == obj1(k1@, v1@),
{
    let v = vec![(owned(k1), v1)];
    let ghost vv = v@;
    let r = Json::Object(v);
    proof {
        lemma_object_view(r);
        assert(vv.map_values(|e: (String, Json)| (e.0@, e.1@)) =~= seq![(k1@, v1@)]);
    }
    r
}

fn object2(k1: &str, v1: Json, k2: &str, v2: Json) -> (r: Json)
    ensures
        r@ == obj2(k1@, v1@, k2@, v2@),
{
    let ghost (w1, w2) = (v1@, v2@);
    let v = vec![(owned(k1), v1), (owned(k2), v2)];
    let ghost vv = v@;
    let r = Json::Object(v);
    proof {
        lemma_object_view(r);
        assert(vv.map_values(|e: (String, Json)| (e.0@, e.1@)) =~= seq![(k1@, w1), (k2@, w2)]);
    }
    r
}

fn object3(k1: &str, v1: Json, k2: &str, v2: Json, k3: &str, v3: Json) -> (r: Json)
    ensures
        r@ == obj3(k1@, v1@, k2@, v2@, k3@, v3@),
{
    let ghost (w1, w2, w3) = (v1@, v2@, v3@);
    let v = vec![(owned(k1), v1), (owned(k2), v2), (owned(k3), v3)];
    let ghost vv = v@;
    let r = Json::Object(v);
    proof {
        lemma_object_view(r);
        assert(vv.map_values(|e: (String, Json)| (e.0@, e.1@)) =~= seq![(k1@, w1), (k2@, w2), (k3@, w3)]);
    }
    r
}

fn uint_value(n: u64) -> (r: Json)
    ensures
        r@ == uint_json(n),
{
    Json::Number(JsonNumber::PosInt(n))
}

fn string_value(s: &str) -> (r: Json)
    ensures
        r@ == JsonV::Str(s@),
{
    Json::Str(owned(s))
}

fn doc_id(uri: &str) -> (r: Json)
    ensures
        r@ == doc_id_json(uri@),
{
    object1("uri", string_value(uri))
}

fn position(line: u32, character: u32) -> (r: Json)
    ensures
        r@ == position_json(line, character),
{
    object2("character", uint_value(character as u64), "line", uint_value(line as u64))
}

/// `initialize` params (see `initialize_json`); `process_id` is the caller's process id.
pub fn initialize_params(process_id: u32, root_uri: &str) -> (r: Json)
    ensures
        r@ == initialize_json(process_id, root_uri@),
{
    let caps = object1(
        "textDocument",
        object2(
            "publishDiagnostics",
            object1("relatedInformation", Json::Bool(false)),
            "synchronization",
            object1("didSave", Json::Bool(false)),
        ),
    );
    object3("capabilities", caps, "processId", uint_value(process_id as u64), "rootUri", string_value(root_uri))
}

/// `textDocument/didOpen` params (see `did_open_json`).
pub fn did_open_params(uri: &str, language_id: &str, version: i64, text: &str) -> (r: Json)
    ensures
        r@ == did_open_json(uri@, language_id@, version, text@),
{
    let v = vec![
        (owned("languageId"), string_value(language_id)),
        (owned("text"), string_value(text)),
        (owned("uri"), string_value(uri)),
        (owned("version"), int_value(version)),
    ];
    let ghost vv = v@;
    let doc = Json::Object(v);
    proof {
        lemma_object_view(doc);
        assert(vv.map_values(|e: (String, Json)| (e.0@, e.1@)) =~= did_open_json(uri@, language_id@, version, text@)->Object_0[0].1->Object_0);
    }
    object1("textDocument", doc)
}

/// `textDocument/didChange` params (see `did_change_json`).
pub fn did_change_params(uri: &str, version: i64, text: &str) -> (r: Json)
    ensures
        r@ == did_change_json(uri@, version, text@),
{
    let change = object1("text", string_value(text));
    let ghost cv = change@;
    let changes = Json::Array(vec![change]);
    proof {
        lemma_array_view(changes);
        assert(changes->Array_0@.map_values(|e: Json| e@) =~= seq![cv]);
    }
    object2(
        "contentChanges",
        changes,
        "textDocument",
        object2("uri", string_value(uri), "version", int_value(version)),
    )
}

/// `{ position, textDocument }` params, for hover and definition (see `position_params_json`).
pub fn position_params(uri: &str, line: u32, character: u32) -> (r: Json)
    ensures
        r@ == position_params_json(uri@, line, character),
{
    object2("position", position(line, character), "textDocument", doc_id(uri))
}

/// `textDocument/formatting` params (see `formatting_json`).
pub fn formatting_params(uri: &str, tab_size: u32, insert_spaces: bool) -> (r: Json)
    ensures
        r@ == formatting_json(uri@, tab_size, insert_spaces),
{
    object2(
        "options",
        object2("insertSpaces", Json::Bool(insert_spaces), "tabSize", uint_value(tab_size as u64)),
        "textDocument",
        doc_id(uri),
    )
}

/// `textDocument/rename` params (see `rename_json`).
pub fn rename_params(uri: &str, line: u32, character: u32, new_name: &str) -> (r: Json)
    ensures
        r@ == rename_json(uri@, line, character, new_name@),
{
    object3("newName", string_value(new_name), "position", position(line, character), "textDocument", doc_id(uri))
}

/// `textDocument/completion` params: the `{ position, textDocument }` shape.
pub fn completion_params(uri: &str, line: u32, character: u32) -> (r: Json)
    ensures
        r@ == position_params_json(uri@, line, character),
{
    position_params(uri, line, character)
}

/// `textDocument/codeAction` params (see `code_action_json`).
pub fn code_action_params(uri: &str, line: u32, character: u32, diagnostics: Json) -> (r: Json)
    ensures
        r@ == code_action_json(uri@, line, character, diagnostics@),
{
    object3(
        "context",
        object1("diagnostics", diagnostics),
        "range",
        object2("end", position(line, character), "start", position(line, character)),
        "textDocument",
        doc_id(uri),
    )
}

/// `textDocument/references` params (see `references_json`).
pub fn references_params(uri: &str, line: u32, character: u32, include_declaration: bool) -> (r: Json)
    ensures
        r@ == references_json(uri@, line, character, include_declaration),
{
    object3(
        "context",
        object1("includeDeclaration", Json::Bool(include_declaration)),
        "position",
        position(line, character),
        "textDocument",
        doc_id(uri),
    )
}

} // verus!
