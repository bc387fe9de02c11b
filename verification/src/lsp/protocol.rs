//! The LSP wire types the client consumes, as plain values, and the conversion of an incoming
//! `publishDiagnostics` into the normalized [`Diag`] model the UI reads. Decoding the JSON into
//! these types happens outside the library.
use vstd::prelude::*;
use crate::json::{json_array, json_get, json_object, json_str, json_u64, Json, JsonNumber, JsonV};
use crate::lsp::model::{lsp_pos_to_byte, pos_to_byte, severity_of, Diag, Severity};
use crate::text::{chars_of, owned};
pub use crate::lsp::params::{
    code_action_params, completion_params, did_change_params, did_open_params, formatting_params, initialize_params,
    position_params, references_params, rename_params,
};

verus! {

/// A `(line, character)` position, `character` in UTF-16 code units.
#[derive(Clone, Copy, PartialEq, Eq, Debug)]
pub struct LspPosition {
    pub line: u32,
    pub character: u32,
}

/// A range of positions.
#[derive(Clone, Copy, PartialEq, Eq, Debug)]
pub struct LspRange {
    pub start: LspPosition,
    pub end: LspPosition,
}

/// One diagnostic as the server sends it.
#[derive(Clone, PartialEq, Eq, Debug)]
pub struct LspDiagnostic {
    pub range: LspRange,
    pub severity: Option<u8>,
    pub message: String,
}

/// The `textDocument/publishDiagnostics` parameters.
#[derive(Clone, PartialEq, Eq, Debug)]
pub struct PublishDiagnosticsParams {
    pub uri: String,
    pub diagnostics: Vec<LspDiagnostic>,
}

/// The normalized diagnostic for `d` against `bytes`: the range converted to byte offsets (the
/// end never before the start), the severity normalized, the message kept.
pub open spec fn diag_of(bytes: Seq<u8>, d: LspDiagnostic, out: Diag) -> bool {
    let start = pos_to_byte(bytes, d.range.start.line, d.range.start.character);
    let end = pos_to_byte(bytes, d.range.end.line, d.range.end.character);
    &&& out.start == start
    &&& out.end == if end >= start { end } else { start }
    &&& out.severity == severity_of(d.severity)
    &&& out.message@ == d.message@
}

/// Convert an LSP `publishDiagnostics` payload to normalized byte-range [`Diag`]s against `bytes`.
pub fn to_diags(bytes: &[u8], params: &PublishDiagnosticsParams) -> (r: Vec<Diag>)
    ensures
        r@.len() == params.diagnostics@.len(),
        forall|k: int| 0 <= k < r@.len() ==> diag_of(bytes@, params.diagnostics@[k], #[trigger] r@[k]),
{
    let mut out: Vec<Diag> = Vec::new();
    let n = params.diagnostics.len();
    let mut i: usize = 0;
    while i < n
        invariant
            i <= n,
            n == params.diagnostics@.len(),
            out@.len() == i,
            forall|k: int| 0 <= k < i ==> diag_of(bytes@, params.diagnostics@[k], #[trigger] out@[k]),
        decreases n - i,
    {
        let d = &params.diagnostics[i];
        let start = lsp_pos_to_byte(bytes, d.range.start.line, d.range.start.character);
        let end0 = lsp_pos_to_byte(bytes, d.range.end.line, d.range.end.character);
        let end = if end0 >= start { end0 } else { start };
        let message = d.message.clone();
        out.push(Diag { start, end, severity: Severity::from_lsp(d.severity), message });
        i += 1;
    }
    out
}

/// One text edit: `((start line, start character), (end line, end character), new text)`, in
/// LSP positions.
pub type LspTextEdit = ((u32, u32), (u32, u32), String);

/// The view of a text edit.
pub open spec fn edit_view(e: LspTextEdit) -> ((u32, u32), (u32, u32), Seq<char>) {
    (e.0, e.1, e.2@)
}

/// The views of a list of text edits.
pub open spec fn edits_view(v: Seq<LspTextEdit>) -> Seq<((u32, u32), (u32, u32), Seq<char>)> {
    v.map_values(|e: LspTextEdit| edit_view(e))
}

/// A `{ line, character }` object's two numbers (each cut to `u32`).
pub open spec fn position_of(p: JsonV) -> Option<(u32, u32)> {
    match (json_get(p, "line"@), json_get(p, "character"@)) {
        (Some(l), Some(c)) => match (json_u64(l), json_u64(c)) {
            (Some(l), Some(c)) => Some((l as u32, c as u32)),
            _ => None,
        },
        _ => None,
    }
}

/// A `TextEdit` object: its `range` (`start`, `end`) and `newText`; none when any part is
/// missing or of the wrong type.
pub open spec fn edit_of(e: JsonV) -> Option<((u32, u32), (u32, u32), Seq<char>)> {
    match json_get(e, "range"@) {
        None => None,
        Some(range) => match (json_get(range, "start"@), json_get(range, "end"@), json_get(e, "newText"@)) {
            (Some(s), Some(t), Some(text)) => match (position_of(s), position_of(t), json_str(text)) {
                (Some(a), Some(b), Some(text)) => Some((a, b, text)),
                _ => None,
            },
            _ => None,
        },
    }
}

/// The text edits of a JSON array: the elements that are well-formed edits, in order.
pub open spec fn edits_of(arr: Seq<JsonV>) -> Seq<((u32, u32), (u32, u32), Seq<char>)>
    decreases arr.len(),
{
    if arr.len() == 0 {
        seq![]
    } else {
        edits_of(arr.drop_last()) + match edit_of(arr.last()) {
            Some(e) => seq![e],
            None => seq![],
        }
    }
}

/// Reads a `{ line, character }` object (see `position_of`).
fn parse_position(p: &Json) -> (r: Option<(u32, u32)>)
    ensures
        r == position_of(p@),
{
    let l = p.get("line")?.as_u64()?;
    let c = p.get("character")?.as_u64()?;
    Some((#[verifier::truncate] (l as u32), #[verifier::truncate] (c as u32)))
}

/// Reads a `TextEdit` object (see `edit_of`).
fn parse_edit(e: &Json) -> (r: Option<LspTextEdit>)
    ensures
        r matches Some(x) ==> edit_of(e@) == Some(edit_view(x)),
        r is None ==> edit_of(e@) is None,
{
    let range = e.get("range")?;
    let s = range.get("start")?;
    let t = range.get("end")?;
    let text = e.get("newText")?.as_str()?;
    let a = parse_position(s)?;
    let b = parse_position(t)?;
    Some((a, b, owned(text)))
}

/// Reads the text edits of a JSON array (see `edits_of`).
pub fn parse_edit_array(arr: &[Json]) -> (r: Vec<LspTextEdit>)
    ensures
        edits_view(r@) == edits_of(arr@.map_values(|j: Json| j@)),
{
    let ghost av = arr@.map_values(|j: Json| j@);
    let mut out: Vec<LspTextEdit> = Vec::new();
    let mut i: usize = 0;
    while i < arr.len()
        invariant
            i <= arr@.len(),
            av == arr@.map_values(|j: Json| j@),
            edits_view(out@) == edits_of(av.take(i as int)),
        decreases arr.len() - i,
    {
        assert(av.take(i + 1).drop_last() =~= av.take(i as int));
        assert(av.take(i + 1).last() == arr@[i as int]@);
        let ghost before = out@;
        match parse_edit(&arr[i]) {
            Some(x) => {
                out.push(x);
                assert(edits_view(out@) =~= edits_view(before) + seq![edit_view(x)]);
            },
            None => {},
        }
        i += 1;
    }
    assert(av.take(arr@.len() as int) =~= av);
    out
}

/// The elements of a JSON array value, as views.
pub open spec fn array_views(a: &Vec<Json>) -> Seq<JsonV> {
    a@.map_values(|j: Json| j@)
}

proof fn lemma_array_views(j: JsonV, a: &Vec<Json>)
    requires
        json_array(j) is Some,
        json_array(j)->0.len() == a@.len(),
        forall|k: int| 0 <= k < a@.len() ==> #[trigger] json_array(j)->0[k] == a@[k]@,
    ensures
        json_array(j)->0 == array_views(a),
{
    assert(json_array(j)->0 =~= array_views(a));
}

/// The edits of a formatting response: a `TextEdit[]`; anything else gives none.
pub open spec fn text_edits_of(result: JsonV) -> Seq<((u32, u32), (u32, u32), Seq<char>)> {
    match json_array(result) {
        Some(a) => edits_of(a),
        None => seq![],
    }
}

/// Reads a formatting response (see `text_edits_of`).
pub fn parse_text_edits(result: &Json) -> (r: Vec<LspTextEdit>)
    ensures
        edits_view(r@) == text_edits_of(result@),
{
    match result.as_array() {
        Some(a) => {
            proof {
                lemma_array_views(result@, a);
            }
            parse_edit_array(a.as_slice())
        },
        None => Vec::new(),
    }
}

/// The per-file edits of a workspace edit, as views: `(uri, edits)`.
pub open spec fn file_edits_view(v: Seq<(String, Vec<LspTextEdit>)>) -> Seq<(Seq<char>, Seq<((u32, u32), (u32, u32), Seq<char>)>)> {
    v.map_values(|f: (String, Vec<LspTextEdit>)| (f.0@, edits_view(f.1@)))
}

/// One `documentChanges` entry: its document's uri and its edits, when it has a non-empty
/// `edits` array (a resource operation has none).
pub open spec fn doc_change_of(dc: JsonV) -> Option<(Seq<char>, Seq<((u32, u32), (u32, u32), Seq<char>)>)> {
    match json_get(dc, "textDocument"@) {
        None => None,
        Some(td) => match json_get(td, "uri"@) {
            None => None,
            Some(u) => match json_str(u) {
                None => None,
                Some(uri) => match json_get(dc, "edits"@) {
                    None => None,
                    Some(e) => match json_array(e) {
                        None => None,
                        Some(a) => if edits_of(a).len() > 0 { Some((uri, edits_of(a))) } else { None },
                    },
                },
            },
        },
    }
}

/// The `documentChanges` entries that carry edits, in order.
pub open spec fn doc_changes_of(arr: Seq<JsonV>) -> Seq<(Seq<char>, Seq<((u32, u32), (u32, u32), Seq<char>)>)>
    decreases arr.len(),
{
    if arr.len() == 0 {
        seq![]
    } else {
        doc_changes_of(arr.drop_last()) + match doc_change_of(arr.last()) {
            Some(c) => seq![c],
            None => seq![],
        }
    }
}

/// The `changes` map entries whose value is an array holding edits, in order.
pub open spec fn change_entries_of(o: Seq<(Seq<char>, JsonV)>) -> Seq<(Seq<char>, Seq<((u32, u32), (u32, u32), Seq<char>)>)>
    decreases o.len(),
{
    if o.len() == 0 {
        seq![]
    } else {
        change_entries_of(o.drop_last()) + match json_array(o.last().1) {
            Some(a) => if edits_of(a).len() > 0 { seq![(o.last().0, edits_of(a))] } else { seq![] },
            None => seq![],
        }
    }
}

/// The per-file edits of a `WorkspaceEdit`: from `documentChanges` when it is an array, else from
/// the `changes` map when it is an object, else none.
pub open spec fn workspace_edit_of(result: JsonV) -> Seq<(Seq<char>, Seq<((u32, u32), (u32, u32), Seq<char>)>)> {
    match json_get(result, "documentChanges"@) {
        Some(d) if json_array(d) is Some => doc_changes_of(json_array(d)->0),
        _ => match json_get(result, "changes"@) {
            Some(c) if json_object(c) is Some => change_entries_of(json_object(c)->0),
            _ => seq![],
        },
    }
}

/// Reads one `documentChanges` entry (see `doc_change_of`).
fn parse_doc_change(dc: &Json) -> (r: Option<(String, Vec<LspTextEdit>)>)
    ensures
        r matches Some(x) ==> doc_change_of(dc@) == Some((x.0@, edits_view(x.1@))),
        r is None ==> doc_change_of(dc@) is None,
{
    let uri = dc.get("textDocument")?.get("uri")?.as_str()?;
    let e = dc.get("edits")?;
    let a = e.as_array()?;
    proof {
        lemma_array_views(e@, a);
    }
    let edits = parse_edit_array(a.as_slice());
    if edits.len() > 0 {
        Some((owned(uri), edits))
    } else {
        None
    }
}

/// Reads the `documentChanges` entries that carry edits (see `doc_changes_of`).
fn parse_doc_changes(dcs: &Vec<Json>) -> (r: Vec<(String, Vec<LspTextEdit>)>)
    ensures
        file_edits_view(r@) == doc_changes_of(array_views(dcs)),
{
    let mut out: Vec<(String, Vec<LspTextEdit>)> = Vec::new();
    let ghost av = array_views(dcs);
    let mut i: usize = 0;
    while i < dcs.len()
        invariant
            i <= dcs@.len(),
            av == array_views(dcs),
            file_edits_view(out@) == doc_changes_of(av.take(i as int)),
        decreases dcs.len() - i,
    {
        assert(av.take(i + 1).drop_last() =~= av.take(i as int));
        assert(av.take(i + 1).last() == dcs@[i as int]@);
        let ghost before = out@;
        match parse_doc_change(&dcs[i]) {
            Some(x) => {
                out.push(x);
                assert(file_edits_view(out@) =~= file_edits_view(before) + seq![(x.0@, edits_view(x.1@))]);
            },
            None => {},
        }
        i += 1;
    }
    assert(av.take(dcs@.len() as int) =~= av);
    out
}

/// Reads the `changes` entries that carry edits (see `change_entries_of`).
fn parse_change_entries(map: &Vec<(String, Json)>, Ghost(ov): Ghost<Seq<(Seq<char>, JsonV)>>) -> (r: Vec<(String, Vec<LspTextEdit>)>)
    requires
        ov.len() == map@.len(),
        forall|k: int| 0 <= k < map@.len() ==> #[trigger] ov[k] == (map@[k].0@, map@[k].1@),
    ensures
        file_edits_view(r@) == change_entries_of(ov),
{
    let mut out: Vec<(String, Vec<LspTextEdit>)> = Vec::new();
    let mut i: usize = 0;
    while i < map.len()
        invariant
            i <= map@.len(),
            ov.len() == map@.len(),
            forall|k: int| 0 <= k < map@.len() ==> #[trigger] ov[k] == (map@[k].0@, map@[k].1@),
            file_edits_view(out@) == change_entries_of(ov.take(i as int)),
        decreases map.len() - i,
    {
        assert(ov.take(i + 1).drop_last() =~= ov.take(i as int));
        assert(ov.take(i + 1).last() == ov[i as int]);
        let ghost before = out@;
        if let Some(a) = map[i].1.as_array() {
            proof {
                lemma_array_views(map@[i as int].1@, a);
            }
            let edits = parse_edit_array(a.as_slice());
            if edits.len() > 0 {
                let uri = owned(map[i].0.as_str());
                out.push((uri, edits));
                assert(file_edits_view(out@) =~= file_edits_view(before) + seq![
                    (map@[i as int].0@, edits_view(edits@)),
                ]);
            }
        }
        i += 1;
    }
    assert(ov.take(map@.len() as int) =~= ov);
    out
}

/// Reads a `WorkspaceEdit` (see `workspace_edit_of`).
pub fn parse_workspace_edit(result: &Json) -> (r: Vec<(String, Vec<LspTextEdit>)>)
    ensures
        file_edits_view(r@) == workspace_edit_of(result@),
{
    if let Some(d) = result.get("documentChanges") {
        if let Some(dcs) = d.as_array() {
            proof {
                lemma_array_views(d@, dcs);
            }
            return parse_doc_changes(dcs);
        }
    }
    if let Some(c) = result.get("changes") {
        if let Some(map) = c.as_object() {
            return parse_change_entries(map, Ghost(json_object(c@)->0));
        }
    }
    let out: Vec<(String, Vec<LspTextEdit>)> = Vec::new();
    assert(file_edits_view(out@) =~= Seq::<(Seq<char>, Seq<((u32, u32), (u32, u32), Seq<char>)>)>::empty());
    out
}

/// Texts joined with a newline between each two.
pub open spec fn join_lines(parts: Seq<Seq<char>>) -> Seq<char>
    decreases parts.len(),
{
    if parts.len() == 0 {
        seq![]
    } else if parts.len() == 1 {
        parts[0]
    } else {
        join_lines(parts.drop_last()) + seq!['\n'] + parts.last()
    }
}

/// The text of hover contents: a string; the `value` of an object; or the texts of an array's
/// elements joined by newlines (none when no element has one).
pub open spec fn markup_of(v: JsonV) -> Option<Seq<char>>
    decreases v, 1int,
{
    match v {
        JsonV::Str(s) => Some(s),
        JsonV::Object(o) => match crate::json::entry_from(o, "value"@, 0) {
            Some(x) => json_str(x),
            None => None,
        },
        JsonV::Array(a) => {
            let parts = markup_parts(a, a.len() as int);
            if parts.len() > 0 { Some(join_lines(parts)) } else { None }
        },
        _ => None,
    }
}

/// The texts of the first `n` elements of `a` that have one, in order.
pub open spec fn markup_parts(a: Seq<JsonV>, n: int) -> Seq<Seq<char>>
    decreases a, n,
{
    if n <= 0 || n > a.len() {
        seq![]
    } else {
        markup_parts(a, n - 1) + match markup_of(a[n - 1]) {
            Some(t) => seq![t],
            None => seq![],
        }
    }
}

/// Joins texts with newlines (see `join_lines`).
fn join_with_newlines(parts: &Vec<String>) -> (r: String)
    ensures
        r@ == join_lines(parts@.map_values(|p: String| p@)),
{
    let ghost pv = parts@.map_values(|p: String| p@);
    let mut out = String::new();
    let mut i: usize = 0;
    while i < parts.len()
        invariant
            i <= parts@.len(),
            pv == parts@.map_values(|p: String| p@),
            out@ == join_lines(pv.take(i as int)),
        decreases parts.len() - i,
    {
        assert(pv.take(i + 1).drop_last() =~= pv.take(i as int));
        if i > 0 {
            out.append("\n");
            proof {
                reveal_strlit("\n");
            }
        }
        out.append(parts[i].as_str());
        assert(i == 0 ==> pv.take(i + 1) =~= seq![pv[0]]);
        i += 1;
    }
    assert(pv.take(parts@.len() as int) =~= pv);
    out
}

/// Reads the text of hover contents (see `markup_of`).
pub fn markup_text(v: &Json) -> (r: Option<String>)
    ensures
        r matches Some(t) ==> markup_of(v@) == Some(t@),
        r is None ==> markup_of(v@) is None,
    decreases v,
{
    match v {
        Json::Str(s) => Some(owned(s.as_str())),
        Json::Object(o) => {
            let x = v.get("value")?;
            let t = x.as_str()?;
            Some(owned(t))
        },
        Json::Array(a) => {
            proof {
                lemma_array_views(v@, a);
            }
            let ghost av = array_views(a);
            let mut parts: Vec<String> = Vec::new();
            let mut i: usize = 0;
            while i < a.len()
                invariant
                    i <= a@.len(),
                    av == array_views(a),
                    *v == Json::Array(*a),
                    v@ == JsonV::Array(av),
                    parts@.map_values(|p: String| p@) == markup_parts(av, i as int),
                decreases a.len() - i,
            {
                assert(*a == (*v)->Array_0);
                assert(decreases_to!(*v => (*v)->Array_0));
                assert(decreases_to!(*a => a@));
                assert(decreases_to!(a@ => a@[i as int]));
                let ghost before = parts@.map_values(|p: String| p@);
                match markup_text(&a[i]) {
                    Some(t) => {
                        parts.push(t);
                        assert(parts@.map_values(|p: String| p@) =~= before.push(t@));
                    },
                    None => {},
                }
                assert(av[i as int] == a@[i as int]@);
                i += 1;
            }
            if parts.len() > 0 {
                Some(join_with_newlines(&parts))
            } else {
                None
            }
        },
        _ => None,
    }
}

/// A line without the CR of a CRLF ending.
pub open spec fn strip_cr(t: Seq<char>) -> Seq<char> {
    if t.len() > 0 && t.last() == '\r' { t.drop_last() } else { t }
}

/// `str::lines` from position `i`, the current line starting at `start`: lines end at `\n`
/// (a CR before it is dropped); a last line without `\n` is kept as it is when not empty.
pub open spec fn lines_from(s: Seq<char>, start: int, i: int) -> Seq<Seq<char>>
    decreases s.len() - i,
{
    if i >= s.len() {
        if start < s.len() { seq![s.subrange(start, s.len() as int)] } else { seq![] }
    } else if s[i] == '\n' {
        seq![strip_cr(s.subrange(start, i))] + lines_from(s, i + 1, i + 1)
    } else {
        lines_from(s, start, i + 1)
    }
}

/// The lines of a text, as `str::lines` splits it.
pub open spec fn lines_of(s: Seq<char>) -> Seq<Seq<char>> {
    lines_from(s, 0, 0)
}

/// Splits a text into lines (see `lines_of`).
pub fn split_lines(text: &str) -> (r: Vec<String>)
    ensures
        r@.map_values(|l: String| l@) == lines_of(text@),
{
    let cs = chars_of(text);
    let mut out: Vec<String> = Vec::new();
    let mut start: usize = 0;
    let mut i: usize = 0;
    while i < cs.len()
        invariant
            start <= i <= cs@.len(),
            cs@ == text@,
            out@.map_values(|l: String| l@) + lines_from(cs@, start as int, i as int) == lines_of(text@),
        decreases cs.len() - i,
    {
        if cs[i] == '\n' {
            let end = if i > start && cs[i - 1] == '\r' { i - 1 } else { i };
            let line = crate::text::string_of_range(cs.as_slice(), start, end);
            assert(line@ == strip_cr(cs@.subrange(start as int, i as int))) by {
                if i > start && cs@[i - 1] == '\r' {
                    assert(cs@.subrange(start as int, i as int).drop_last() =~= cs@.subrange(start as int, i - 1));
                }
            }
            let ghost before = out@.map_values(|l: String| l@);
            out.push(line);
            assert(out@.map_values(|l: String| l@) =~= before.push(line@));
            assert(before.push(line@) + lines_from(cs@, i + 1, i + 1) =~= before + (seq![line@] + lines_from(
                cs@,
                i + 1,
                i + 1,
            )));
            start = i + 1;
        }
        i += 1;
    }
    if start < cs.len() {
        let line = crate::text::string_of_range(cs.as_slice(), start, cs.len());
        let ghost before = out@.map_values(|l: String| l@);
        out.push(line);
        assert(out@.map_values(|l: String| l@) =~= before.push(line@));
    } else {
        assert(out@.map_values(|l: String| l@) + seq![] =~= out@.map_values(|l: String| l@));
    }
    out
}

/// The lines of a hover response's `contents`, when it has text with at least one line.
pub open spec fn hover_of(result: JsonV) -> Option<Seq<Seq<char>>> {
    match json_get(result, "contents"@) {
        None => None,
        Some(c) => match markup_of(c) {
            None => None,
            Some(t) => if lines_of(t).len() > 0 { Some(lines_of(t)) } else { None },
        },
    }
}

/// Reads a hover response (see `hover_of`).
pub fn parse_hover(result: &Json) -> (r: Option<Vec<String>>)
    ensures
        r matches Some(v) ==> hover_of(result@) == Some(v@.map_values(|l: String| l@)),
        r is None ==> hover_of(result@) is None,
{
    let text = markup_text(result.get("contents")?)?;
    let lines = split_lines(text.as_str());
    if lines.len() > 0 {
        Some(lines)
    } else {
        None
    }
}

/// The first of `a` that is there, else `b`.
pub open spec fn or_else<T>(a: Option<T>, b: Option<T>) -> Option<T> {
    if a is Some { a } else { b }
}

/// One `Location` or `LocationLink`: its uri (`uri`, else `targetUri`) and the start of its range
/// (`range`, else `targetSelectionRange`, else `targetRange`).
pub open spec fn location_of(loc: JsonV) -> Option<(Seq<char>, u32, u32)> {
    match or_else(json_get(loc, "uri"@), json_get(loc, "targetUri"@)) {
        None => None,
        Some(u) => match json_str(u) {
            None => None,
            Some(uri) => match or_else(
                json_get(loc, "range"@),
                or_else(json_get(loc, "targetSelectionRange"@), json_get(loc, "targetRange"@)),
            ) {
                None => None,
                Some(range) => match json_get(range, "start"@) {
                    None => None,
                    Some(start) => match position_of(start) {
                        None => None,
                        Some((l, c)) => Some((uri, l, c)),
                    },
                },
            },
        },
    }
}

/// Reads one location (see `location_of`).
fn parse_location(loc: &Json) -> (r: Option<(String, u32, u32)>)
    ensures
        r matches Some(x) ==> location_of(loc@) == Some((x.0@, x.1, x.2)),
        r is None ==> location_of(loc@) is None,
{
    let u = match loc.get("uri") {
        Some(u) => u,
        None => loc.get("targetUri")?,
    };
    let uri = u.as_str()?;
    let range = match loc.get("range") {
        Some(r) => r,
        None => match loc.get("targetSelectionRange") {
            Some(r) => r,
            None => loc.get("targetRange")?,
        },
    };
    let start = range.get("start")?;
    let (l, c) = parse_position(start)?;
    Some((owned(uri), l, c))
}

/// The locations in an array, in order, skipping what is no location.
pub open spec fn locations_in(arr: Seq<JsonV>) -> Seq<(Seq<char>, u32, u32)>
    decreases arr.len(),
{
    if arr.len() == 0 {
        seq![]
    } else {
        locations_in(arr.drop_last()) + match location_of(arr.last()) {
            Some(l) => seq![l],
            None => seq![],
        }
    }
}

/// Every location of a references or definition response: each of an array, or a single bare
/// one.
pub open spec fn locations_of(result: JsonV) -> Seq<(Seq<char>, u32, u32)> {
    match json_array(result) {
        Some(a) => locations_in(a),
        None => match location_of(result) {
            Some(l) => seq![l],
            None => seq![],
        },
    }
}

/// The views of located positions.
pub open spec fn locs_view(v: Seq<(String, u32, u32)>) -> Seq<(Seq<char>, u32, u32)> {
    v.map_values(|x: (String, u32, u32)| (x.0@, x.1, x.2))
}

/// Reads every location of a response (see `locations_of`).
pub fn parse_locations(result: &Json) -> (r: Vec<(String, u32, u32)>)
    ensures
        locs_view(r@) == locations_of(result@),
{
    let mut out: Vec<(String, u32, u32)> = Vec::new();
    match result.as_array() {
        Some(arr) => {
            proof {
                lemma_array_views(result@, arr);
            }
            let ghost av = array_views(arr);
            let mut i: usize = 0;
            while i < arr.len()
                invariant
                    i <= arr@.len(),
                    av == array_views(arr),
                    locs_view(out@) == locations_in(av.take(i as int)),
                decreases arr.len() - i,
            {
                assert(av.take(i + 1).drop_last() =~= av.take(i as int));
                assert(av.take(i + 1).last() == arr@[i as int]@);
                let ghost before = out@;
                match parse_location(&arr[i]) {
                    Some(x) => {
                        out.push(x);
                        assert(locs_view(out@) =~= locs_view(before) + seq![(x.0@, x.1, x.2)]);
                    },
                    None => {},
                }
                i += 1;
            }
            assert(av.take(arr@.len() as int) =~= av);
        },
        None => {
            match parse_location(result) {
                Some(x) => {
                    out.push(x);
                    assert(locs_view(out@) =~= seq![(x.0@, x.1, x.2)]);
                },
                None => {
                    assert(locs_view(out@) =~= Seq::<(Seq<char>, u32, u32)>::empty());
                },
            }
        },
    }
    out
}

/// The definition a response points to: its first location.
pub open spec fn definition_of(result: JsonV) -> Option<(Seq<char>, u32, u32)> {
    if locations_of(result).len() > 0 { Some(locations_of(result)[0]) } else { None }
}

/// Reads a definition response (see `definition_of`).
pub fn parse_definition(result: &Json) -> (r: Option<(String, u32, u32)>)
    ensures
        r matches Some(x) ==> definition_of(result@) == Some((x.0@, x.1, x.2)),
        r is None ==> definition_of(result@) is None,
{
    let mut all = parse_locations(result);
    if all.len() > 0 {
        let first = all.remove(0);
        Some(first)
    } else {
        None
    }
}

/// One completion candidate.
#[derive(Debug)]
pub struct CompletionItem {
    /// What the menu shows.
    pub label: String,
    /// What is inserted: a snippet body when `snippet`, else literal text.
    pub insert: String,
    /// A type or signature shown beside the label.
    pub detail: Option<String>,
    /// Whether `insert` is a snippet body.
    pub snippet: bool,
    /// Documentation text.
    pub documentation: Option<String>,
    /// Extra edits applied with the insert (such as an import), per file.
    pub additional: Vec<(String, Vec<LspTextEdit>)>,
    /// The item as the server sent it, for a later `completionItem/resolve`.
    pub raw: Json,
    /// Whether the item was resolved already.
    pub resolved: bool,
}

/// The view of a completion item.
pub struct CompletionItemV {
    pub label: Seq<char>,
    pub insert: Seq<char>,
    pub detail: Option<Seq<char>>,
    pub snippet: bool,
    pub documentation: Option<Seq<char>>,
    pub additional: Seq<(Seq<char>, Seq<((u32, u32), (u32, u32), Seq<char>)>)>,
    pub raw: JsonV,
    pub resolved: bool,
}

/// The view of an optional text.
pub open spec fn opt_view(o: Option<String>) -> Option<Seq<char>> {
    match o {
        Some(s) => Some(s@),
        None => None,
    }
}

impl View for CompletionItem {
    type V = CompletionItemV;

    open spec fn view(&self) -> CompletionItemV {
        CompletionItemV {
            label: self.label@,
            insert: self.insert@,
            detail: opt_view(self.detail),
            snippet: self.snippet,
            documentation: opt_view(self.documentation),
            additional: file_edits_view(self.additional@),
            raw: self.raw@,
            resolved: self.resolved,
        }
    }
}

/// A copy of an optional text.
fn copy_opt(o: &Option<String>) -> (r: Option<String>)
    ensures
        opt_view(r) == opt_view(*o),
{
    match o {
        Some(s) => Some(owned(s.as_str())),
        None => None,
    }
}

/// A copy of a list of text edits.
fn copy_edits(v: &Vec<LspTextEdit>) -> (r: Vec<LspTextEdit>)
    ensures
        edits_view(r@) == edits_view(v@),
{
    let mut out: Vec<LspTextEdit> = Vec::new();
    let mut i: usize = 0;
    while i < v.len()
        invariant
            i <= v@.len(),
            edits_view(out@) == edits_view(v@.take(i as int)),
        decreases v.len() - i,
    {
        let e = &v[i];
        let ghost before = out@;
        let c = (e.0, e.1, owned(e.2.as_str()));
        assert(edit_view(c) == edit_view(v@[i as int]));
        out.push(c);
        assert(v@.take(i + 1) =~= v@.take(i as int).push(v@[i as int]));
        assert(edits_view(out@) =~= edits_view(before).push(edit_view(c)));
        assert(edits_view(v@.take(i + 1)) =~= edits_view(v@.take(i as int)).push(edit_view(v@[i as int])));
        i += 1;
    }
    assert(v@.take(v@.len() as int) =~= v@);
    out
}

/// A copy of per-file edits.
fn copy_file_edits(v: &Vec<(String, Vec<LspTextEdit>)>) -> (r: Vec<(String, Vec<LspTextEdit>)>)
    ensures
        file_edits_view(r@) == file_edits_view(v@),
{
    let mut out: Vec<(String, Vec<LspTextEdit>)> = Vec::new();
    let mut i: usize = 0;
    while i < v.len()
        invariant
            i <= v@.len(),
            file_edits_view(out@) == file_edits_view(v@.take(i as int)),
        decreases v.len() - i,
    {
        let f = &v[i];
        let ghost before = out@;
        let c = (owned(f.0.as_str()), copy_edits(&f.1));
        out.push(c);
        assert(v@.take(i + 1) =~= v@.take(i as int).push(v@[i as int]));
        assert(file_edits_view(out@) =~= file_edits_view(before).push((c.0@, edits_view(c.1@))));
        assert(file_edits_view(v@.take(i + 1)) =~= file_edits_view(v@.take(i as int)).push(
            (v@[i as int].0@, edits_view(v@[i as int].1@)),
        ));
        i += 1;
    }
    assert(v@.take(v@.len() as int) =~= v@);
    out
}

impl Clone for CompletionItem {
    /// A deep copy of the item.
    fn clone(&self) -> (r: CompletionItem)
        ensures
            r@ == self@,
    {
        CompletionItem {
            label: owned(self.label.as_str()),
            insert: owned(self.insert.as_str()),
            detail: copy_opt(&self.detail),
            snippet: self.snippet,
            documentation: copy_opt(&self.documentation),
            additional: copy_file_edits(&self.additional),
            raw: self.raw.copy(),
            resolved: self.resolved,
        }
    }
}

/// The documentation text of an item: its `documentation`, a string or a markup object.
pub open spec fn documentation_of(item: JsonV) -> Option<Seq<char>> {
    match json_get(item, "documentation"@) {
        Some(d) => markup_of(d),
        None => None,
    }
}

/// Reads the documentation of an item (see `documentation_of`).
fn documentation_text(item: &Json) -> (r: Option<String>)
    ensures
        opt_view(r) == documentation_of(item@),
{
    match item.get("documentation") {
        Some(d) => markup_text(d),
        None => None,
    }
}

/// The `additionalTextEdits` of an item, under one entry with an empty uri (the completed
/// document); none when it holds no edit.
pub open spec fn additional_of(item: JsonV) -> Seq<(Seq<char>, Seq<((u32, u32), (u32, u32), Seq<char>)>)> {
    match json_get(item, "additionalTextEdits"@) {
        Some(a) if json_array(a) is Some => {
            let e = edits_of(json_array(a)->0);
            if e.len() > 0 { seq![(Seq::empty(), e)] } else { seq![] }
        },
        _ => seq![],
    }
}

/// Reads the `additionalTextEdits` of an item (see `additional_of`).
pub fn parse_additional_text_edits(item: &Json) -> (r: Vec<(String, Vec<LspTextEdit>)>)
    ensures
        file_edits_view(r@) == additional_of(item@),
{
    let mut out: Vec<(String, Vec<LspTextEdit>)> = Vec::new();
    if let Some(a) = item.get("additionalTextEdits") {
        if let Some(arr) = a.as_array() {
            proof {
                lemma_array_views(a@, arr);
            }
            let edits = parse_edit_array(arr.as_slice());
            if edits.len() > 0 {
                out.push((String::new(), edits));
                assert(file_edits_view(out@) =~= seq![(Seq::<char>::empty(), edits_view(edits@))]);
                return out;
            }
        }
    }
    assert(file_edits_view(out@) =~= Seq::<(Seq<char>, Seq<((u32, u32), (u32, u32), Seq<char>)>)>::empty());
    out
}

/// One completion item: it needs a string `label`; the inserted text is `textEdit.newText`,
/// else `insertText`, else the label; `insertTextFormat` 2 marks a snippet.
pub open spec fn completion_item_of(it: JsonV) -> Option<CompletionItemV> {
    match json_get(it, "label"@) {
        None => None,
        Some(l) => match json_str(l) {
            None => None,
            Some(label) => {
                let snippet = match json_get(it, "insertTextFormat"@) {
                    Some(f) => json_u64(f) == Some(2u64),
                    None => false,
                };
                let from_edit = match json_get(it, "textEdit"@) {
                    Some(te) => match json_get(te, "newText"@) {
                        Some(t) => json_str(t),
                        None => None,
                    },
                    None => None,
                };
                let from_insert = match json_get(it, "insertText"@) {
                    Some(t) => json_str(t),
                    None => None,
                };
                let insert = match or_else(from_edit, from_insert) {
                    Some(t) => t,
                    None => label,
                };
                let detail = match json_get(it, "detail"@) {
                    Some(d) => json_str(d),
                    None => None,
                };
                Some(
                    CompletionItemV {
                        label,
                        insert,
                        detail,
                        snippet,
                        documentation: documentation_of(it),
                        additional: additional_of(it),
                        raw: it,
                        resolved: false,
                    },
                )
            },
        },
    }
}

/// The items of a list, in order, skipping what is no item.
pub open spec fn completion_items_in(arr: Seq<JsonV>) -> Seq<CompletionItemV>
    decreases arr.len(),
{
    if arr.len() == 0 {
        seq![]
    } else {
        completion_items_in(arr.drop_last()) + match completion_item_of(arr.last()) {
            Some(c) => seq![c],
            None => seq![],
        }
    }
}

/// The items of a completion response: a `CompletionList`'s `items`, or a bare array; else none.
pub open spec fn completion_of(result: JsonV) -> Seq<CompletionItemV> {
    match json_get(result, "items"@) {
        Some(i) if json_array(i) is Some => completion_items_in(json_array(i)->0),
        _ => match json_array(result) {
            Some(a) => completion_items_in(a),
            None => seq![],
        },
    }
}

/// Reads one completion item (see `completion_item_of`).
fn parse_completion_item(it: &Json) -> (r: Option<CompletionItem>)
    ensures
        r matches Some(c) ==> completion_item_of(it@) == Some(c@),
        r is None ==> completion_item_of(it@) is None,
{
    let label = it.get("label")?.as_str()?;
    let snippet = match it.get("insertTextFormat") {
        Some(f) => match f.as_u64() {
            Some(n) => n == 2,
            None => false,
        },
        None => false,
    };
    let from_edit = match it.get("textEdit") {
        Some(te) => match te.get("newText") {
            Some(t) => t.as_str(),
            None => None,
        },
        None => None,
    };
    let insert = match from_edit {
        Some(t) => owned(t),
        None => match it.get("insertText") {
            Some(t) => match t.as_str() {
                Some(t) => owned(t),
                None => owned(label),
            },
            None => owned(label),
        },
    };
    let detail = match it.get("detail") {
        Some(d) => match d.as_str() {
            Some(d) => Some(owned(d)),
            None => None,
        },
        None => None,
    };
    Some(
        CompletionItem {
            label: owned(label),
            insert,
            detail,
            snippet,
            documentation: documentation_text(it),
            additional: parse_additional_text_edits(it),
            raw: it.copy(),
            resolved: false,
        },
    )
}

/// The views of completion items.
pub open spec fn items_view(v: Seq<CompletionItem>) -> Seq<CompletionItemV> {
    v.map_values(|c: CompletionItem| c@)
}

/// Reads the items of an array (see `completion_items_in`).
fn parse_completion_items(arr: &Vec<Json>) -> (r: Vec<CompletionItem>)
    ensures
        items_view(r@) == completion_items_in(array_views(arr)),
{
    let ghost av = array_views(arr);
    let mut out: Vec<CompletionItem> = Vec::new();
    let mut i: usize = 0;
    while i < arr.len()
        invariant
            i <= arr@.len(),
            av == array_views(arr),
            items_view(out@) == completion_items_in(av.take(i as int)),
        decreases arr.len() - i,
    {
        assert(av.take(i + 1).drop_last() =~= av.take(i as int));
        assert(av.take(i + 1).last() == arr@[i as int]@);
        let ghost before = out@;
        match parse_completion_item(&arr[i]) {
            Some(c) => {
                let ghost cv = c@;
                out.push(c);
                assert(items_view(out@) =~= items_view(before) + seq![cv]);
            },
            None => {},
        }
        i += 1;
    }
    assert(av.take(arr@.len() as int) =~= av);
    out
}

/// Reads a completion response (see `completion_of`).
pub fn parse_completion(result: &Json) -> (r: Vec<CompletionItem>)
    ensures
        items_view(r@) == completion_of(result@),
{
    if let Some(items) = result.get("items") {
        if let Some(arr) = items.as_array() {
            proof {
                lemma_array_views(items@, arr);
            }
            return parse_completion_items(arr);
        }
    }
    match result.as_array() {
        Some(arr) => {
            proof {
                lemma_array_views(result@, arr);
            }
            parse_completion_items(arr)
        },
        None => Vec::new(),
    }
}

/// Whether an item carries `data`, the sign that the server expects a resolve round-trip.
pub fn has_resolve_data(item: &CompletionItem) -> (r: bool)
    ensures
        r == (json_get(item.raw@, "data"@) is Some),
{
    item.raw.get("data").is_some()
}

/// An item after merging a resolve result: always marked resolved; when the result is an object,
/// its string `detail`, its documentation and its non-empty additional edits replace the item's;
/// the label, the inserted text and the snippet flag never change.
pub open spec fn resolved_item_of(item: CompletionItemV, resolved: JsonV) -> CompletionItemV {
    if !(resolved is Object) {
        CompletionItemV { resolved: true, ..item }
    } else {
        let detail = match json_get(resolved, "detail"@) {
            Some(d) if json_str(d) is Some => json_str(d),
            _ => item.detail,
        };
        let documentation = match documentation_of(resolved) {
            Some(doc) => Some(doc),
            None => item.documentation,
        };
        let additional = if additional_of(resolved).len() > 0 { additional_of(resolved) } else { item.additional };
        CompletionItemV { resolved: true, detail, documentation, additional, ..item }
    }
}

/// Merges a `completionItem/resolve` result into `item` (see `resolved_item_of`).
pub fn apply_resolve(item: &mut CompletionItem, resolved: &Json)
    ensures
        final(item)@ == resolved_item_of(old(item)@, resolved@),
{
    item.resolved = true;
    if !resolved.is_object() {
        return;
    }
    if let Some(d) = resolved.get("detail") {
        if let Some(d) = d.as_str() {
            item.detail = Some(owned(d));
        }
    }
    if let Some(doc) = documentation_text(resolved) {
        item.documentation = Some(doc);
    }
    let extra = parse_additional_text_edits(resolved);
    if extra.len() > 0 {
        item.additional = extra;
    }
}

/// One code action: its title, the inline edit it makes, and the server command it runs
/// (`(id, arguments)`).
#[derive(Debug, PartialEq, Eq)]
pub struct CodeAction {
    pub title: String,
    pub edit: Vec<(String, Vec<LspTextEdit>)>,
    pub command: Option<(String, Vec<Json>)>,
}

/// The view of a code action.
pub struct CodeActionV {
    pub title: Seq<char>,
    pub edit: Seq<(Seq<char>, Seq<((u32, u32), (u32, u32), Seq<char>)>)>,
    pub command: Option<(Seq<char>, Seq<JsonV>)>,
}

impl View for CodeAction {
    type V = CodeActionV;

    open spec fn view(&self) -> CodeActionV {
        CodeActionV {
            title: self.title@,
            edit: file_edits_view(self.edit@),
            command: match self.command {
                Some((id, args)) => Some((id@, args@.map_values(|j: Json| j@))),
                None => None,
            },
        }
    }
}

/// One entry of a code-action response: it needs a string `title`; its edit is the
/// `WorkspaceEdit` under `edit`; its command is `command.command` with `command.arguments` when
/// `command` is an object, else (a bare `Command`) its own `command` and `arguments`. An entry with
/// neither an edit nor a command is dropped.
pub open spec fn code_action_of(a: JsonV) -> Option<CodeActionV> {
    match json_get(a, "title"@) {
        None => None,
        Some(t) => match json_str(t) {
            None => None,
            Some(title) => {
                let edit = match json_get(a, "edit"@) {
                    Some(e) => workspace_edit_of(e),
                    None => seq![],
                };
                let cmd_obj = match json_get(a, "command"@) {
                    Some(c) if c is Object => c,
                    _ => a,
                };
                let command = match json_get(cmd_obj, "command"@) {
                    Some(i) if json_str(i) is Some => Some(
                        (
                            json_str(i)->0,
                            match json_get(cmd_obj, "arguments"@) {
                                Some(x) if json_array(x) is Some => json_array(x)->0,
                                _ => seq![],
                            },
                        ),
                    ),
                    _ => None,
                };
                if edit.len() > 0 || command is Some {
                    Some(CodeActionV { title, edit, command })
                } else {
                    None
                }
            },
        },
    }
}

/// The actions of a list, in order, skipping the entries that are none.
pub open spec fn code_actions_in(arr: Seq<JsonV>) -> Seq<CodeActionV>
    decreases arr.len(),
{
    if arr.len() == 0 {
        seq![]
    } else {
        code_actions_in(arr.drop_last()) + match code_action_of(arr.last()) {
            Some(c) => seq![c],
            None => seq![],
        }
    }
}

/// The actions of a code-action response (an array; anything else gives none).
pub open spec fn code_actions_of(result: JsonV) -> Seq<CodeActionV> {
    match json_array(result) {
        Some(a) => code_actions_in(a),
        None => seq![],
    }
}

/// Copies of the elements of a JSON array.
fn copy_values(a: &Vec<Json>) -> (r: Vec<Json>)
    ensures
        r@.map_values(|j: Json| j@) == array_views(a),
{
    let mut out: Vec<Json> = Vec::new();
    let mut i: usize = 0;
    while i < a.len()
        invariant
            i <= a@.len(),
            out@.map_values(|j: Json| j@) == array_views(a).take(i as int),
        decreases a.len() - i,
    {
        let ghost before = out@.map_values(|j: Json| j@);
        let c = a[i].copy();
        out.push(c);
        assert(out@.map_values(|j: Json| j@) =~= before.push(a@[i as int]@));
        assert(array_views(a).take(i + 1) =~= array_views(a).take(i as int).push(a@[i as int]@));
        i += 1;
    }
    assert(array_views(a).take(a@.len() as int) =~= array_views(a));
    out
}

/// Reads one code action (see `code_action_of`).
fn parse_code_action(a: &Json) -> (r: Option<CodeAction>)
    ensures
        r matches Some(c) ==> code_action_of(a@) == Some(c@),
        r is None ==> code_action_of(a@) is None,
{
    let title = a.get("title")?.as_str()?;
    let edit = match a.get("edit") {
        Some(e) => parse_workspace_edit(e),
        None => {
            let v: Vec<(String, Vec<LspTextEdit>)> = Vec::new();
            assert(file_edits_view(v@) =~= Seq::<(Seq<char>, Seq<((u32, u32), (u32, u32), Seq<char>)>)>::empty());
            v
        },
    };
    let cmd_obj = match a.get("command") {
        Some(c) => if c.is_object() { c } else { a },
        None => a,
    };
    let command = match cmd_obj.get("command") {
        Some(i) => match i.as_str() {
            Some(id) => {
                let empty: Vec<Json> = Vec::new();
                assert(empty@.map_values(|j: Json| j@) =~= Seq::<JsonV>::empty());
                let args = match cmd_obj.get("arguments") {
                    Some(x) => match x.as_array() {
                        Some(arr) => {
                            proof {
                                lemma_array_views(x@, arr);
                            }
                            copy_values(arr)
                        },
                        None => empty,
                    },
                    None => empty,
                };
                Some((owned(id), args))
            },
            None => None,
        },
        None => None,
    };
    if edit.len() > 0 || command.is_some() {
        Some(CodeAction { title: owned(title), edit, command })
    } else {
        None
    }
}

/// Reads a code-action response (see `code_actions_of`).
pub fn parse_code_actions(result: &Json) -> (r: Vec<CodeAction>)
    ensures
        r@.map_values(|c: CodeAction| c@) == code_actions_of(result@),
{
    let mut out: Vec<CodeAction> = Vec::new();
    let arr = match result.as_array() {
        Some(arr) => arr,
        None => return out,
    };
    proof {
        lemma_array_views(result@, arr);
    }
    let ghost av = array_views(arr);
    let mut i: usize = 0;
    while i < arr.len()
        invariant
            i <= arr@.len(),
            av == array_views(arr),
            out@.map_values(|c: CodeAction| c@) == code_actions_in(av.take(i as int)),
        decreases arr.len() - i,
    {
        assert(av.take(i + 1).drop_last() =~= av.take(i as int));
        assert(av.take(i + 1).last() == arr@[i as int]@);
        let ghost before = out@.map_values(|c: CodeAction| c@);
        match parse_code_action(&arr[i]) {
            Some(c) => {
                let ghost cv = c@;
                out.push(c);
                assert(out@.map_values(|c: CodeAction| c@) =~= before + seq![cv]);
            },
            None => {},
        }
        i += 1;
    }
    assert(av.take(arr@.len() as int) =~= av);
    out
}


/// The first location of a list whose first entry is one.
proof fn lemma_locations_in_first(arr: Seq<JsonV>)
    requires
        arr.len() > 0,
        location_of(arr[0]) is Some,
    ensures
        locations_in(arr).len() > 0,
        locations_in(arr)[0] == location_of(arr[0])->0,
    decreases arr.len(),
{
    if arr.len() == 1 {
        assert(arr.drop_last().len() == 0);
        assert(arr.last() == arr[0]);
    } else {
        assert(arr.drop_last()[0] == arr[0]);
        lemma_locations_in_first(arr.drop_last());
    }
}

/// Law: a `LocationLink` (a `targetUri`, no `uri` and no `range`) points at the start of its
/// `targetSelectionRange`, the symbol's name, whether or not it also carries a `targetRange`;
/// as the first entry of a definition response it is the definition. A `Location` (a `uri` and a
/// `range`) points at the start of its `range`.
pub proof fn law_location_points_at_the_selection(
    loc: JsonV,
    rest: Seq<JsonV>,
    uri: Seq<char>,
    range: JsonV,
    start: JsonV,
    line: u64,
    character: u64,
)
    requires
        json_get(start, "line"@) == Some(JsonV::Number(JsonNumber::PosInt(line))),
        json_get(start, "character"@) == Some(JsonV::Number(JsonNumber::PosInt(character))),
        line <= u32::MAX,
        character <= u32::MAX,
        json_get(range, "start"@) == Some(start),
    ensures
        (json_get(loc, "uri"@) is None && json_get(loc, "targetUri"@) == Some(JsonV::Str(uri))
            && json_get(loc, "range"@) is None && json_get(loc, "targetSelectionRange"@) == Some(range))
            ==> location_of(loc) == Some((uri, line as u32, character as u32)) && definition_of(
            JsonV::Array(seq![loc] + rest),
        ) == Some((uri, line as u32, character as u32)),
        (json_get(loc, "uri"@) == Some(JsonV::Str(uri)) && json_get(loc, "range"@) == Some(range))
            ==> location_of(loc) == Some((uri, line as u32, character as u32)),
{
    if location_of(loc) is Some {
        let arr = seq![loc] + rest;
        assert(arr[0] == loc);
        lemma_locations_in_first(arr);
    }
}

} // verus!
