//! Org-mode rich-render decorations — a hand-rolled LINE scanner. Headings, list bullets and
//! checkboxes, tables, inline links and emphasis, and inline images (a description-less
//! `[[file:x.png]]` link conceals its markup and reserves an image block below its line).
//!
//! A decoration names its face (`markup.heading`, `markup.link`, …); the render layer maps face
//! names to terminal styles.
use vstd::prelude::*;
use vstd::utf8::*;
use crate::lsp::model::{lemma_next_newline, lemma_next_newline_count, lemma_next_newline_skip, next_newline};
use crate::persist::encoding::{count_lf, LF};
use crate::text::{owned, utf8_str};

verus! {

/// One decoration over the byte range `start..end` of the source: a face to draw it with, or a
/// concealment (optionally replaced by a virtual glyph).
#[derive(Clone, Copy, PartialEq, Eq, Debug)]
pub struct Span {
    pub start: usize,
    pub end: usize,
    /// The face name; `None` draws with the default style.
    pub face: Option<&'static str>,
    pub conceal: bool,
    pub virt: Option<&'static str>,
}

/// A block reserved below a source line (an inline image).
#[derive(Clone, PartialEq, Eq, Debug)]
pub struct VirtLine {
    pub after_line: usize,
    pub height: u16,
    pub label: String,
    pub path: Option<String>,
}

/// A reserved block as plain values.
pub struct VirtView {
    pub after_line: usize,
    pub height: u16,
    pub label: Seq<char>,
    pub path: Option<Seq<char>>,
}

/// The plain-value view of a reserved block.
pub open spec fn virt_view(v: VirtLine) -> VirtView {
    VirtView {
        after_line: v.after_line,
        height: v.height,
        label: v.label@,
        path: match v.path {
            Some(p) => Some(p@),
            None => None,
        },
    }
}

/// A concealed range.
pub open spec fn conceal(start: int, end: int) -> Span {
    Span { start: start as usize, end: end as usize, face: None, conceal: true, virt: None }
}

/// A range drawn with the face `name`.
pub open spec fn faced(start: int, end: int, name: &'static str) -> Span {
    Span { start: start as usize, end: end as usize, face: Some(name), conceal: false, virt: None }
}

/// A concealed range shown as `glyph`.
pub open spec fn bullet(start: int, end: int, glyph: &'static str) -> Span {
    Span { start: start as usize, end: end as usize, face: None, conceal: true, virt: Some(glyph) }
}

/// The byte at `i`, if any.
pub open spec fn byte_at(b: Seq<u8>, i: int) -> Option<u8> {
    if 0 <= i < b.len() { Some(b[i]) } else { None }
}

/// The length of the run of `c` bytes from `i`.
pub open spec fn run_len(b: Seq<u8>, i: int, c: u8) -> nat
    decreases b.len() - i,
{
    if 0 <= i < b.len() && b[i] == c { 1 + run_len(b, i + 1, c) } else { 0 }
}

/// The face of emphasis marker `m`, if it is one.
pub open spec fn emphasis_face(m: u8) -> Option<&'static str> {
    if m == 0x2A {
        Some("markup.strong")
    } else if m == 0x2F {
        Some("markup.emphasis")
    } else if m == 0x7E {
        Some("markup.code")
    } else if m == 0x3D {
        Some("markup.code")
    } else if m == 0x5F {
        Some("markup.emphasis")
    } else if m == 0x2B {
        Some("markup.strong")
    } else {
        None
    }
}

/// A byte that may precede an OPENING emphasis marker (start of line, space, tab, `(`, `{`, `'`,
/// `"`).
pub open spec fn pre_ok_spec(c: Option<u8>) -> bool {
    match c {
        None => true,
        Some(x) => x == 0x20 || x == 0x09 || x == 0x28 || x == 0x7B || x == 0x27 || x == 0x22,
    }
}

/// A byte that may follow a CLOSING emphasis marker (end of line, space, tab or closing
/// punctuation).
pub open spec fn post_ok_spec(c: Option<u8>) -> bool {
    match c {
        None => true,
        Some(x) => x == 0x20 || x == 0x09 || x == 0x29 || x == 0x7D || x == 0x2E || x == 0x2C || x
            == 0x3B || x == 0x3A || x == 0x21 || x == 0x3F || x == 0x27 || x == 0x22,
    }
}

/// The closing marker index of an emphasis opened at `i` with marker `m`, searching from `j`.
pub open spec fn emphasis_close(b: Seq<u8>, m: u8, j: int) -> Option<int>
    decreases b.len() - j,
{
    if j < 1 || j >= b.len() {
        None
    } else if b[j] == m && b[j - 1] != 0x20 && b[j - 1] != 0x09 && post_ok_spec(byte_at(b, j + 1)) {
        Some(j)
    } else {
        emphasis_close(b, m, j + 1)
    }
}

/// The emphasis span opening at `b[i]`, if valid: its face and the index of its closing marker.
/// The opener is at a word boundary and not followed by space or itself; the closer is the next
/// same marker not preceded by space and at a word boundary.
pub open spec fn emphasis_at(b: Seq<u8>, i: int) -> Option<(&'static str, int)> {
    if i < 0 || i >= b.len() {
        None
    } else {
        let m = b[i];
        match emphasis_face(m) {
            None => None,
            Some(face) => {
                let pre = if i == 0 { None } else { Some(b[i - 1]) };
                if !pre_ok_spec(pre) {
                    None
                } else {
                    match byte_at(b, i + 1) {
                        Some(c) => if c != 0x20 && c != 0x09 && c != m {
                            match emphasis_close(b, m, i + 2) {
                                Some(j) => Some((face, j)),
                                None => None,
                            }
                        } else {
                            None
                        },
                        None => None,
                    }
                }
            },
        }
    }
}

/// The first index `p >= from` with `b[p] == x` and `b[p + 1] == y`.
pub open spec fn find_pair(b: Seq<u8>, from: int, x: u8, y: u8) -> Option<int>
    decreases b.len() - from,
{
    if from < 0 || from + 1 >= b.len() {
        None
    } else if b[from] == x && b[from + 1] == y {
        Some(from)
    } else {
        find_pair(b, from + 1, x, y)
    }
}

pub proof fn lemma_find_pair(b: Seq<u8>, from: int, x: u8, y: u8)
    ensures
        find_pair(b, from, x, y) matches Some(p) ==> from <= p && p + 1 < b.len() && b[p] == x && b[p
            + 1] == y,
    decreases b.len() - from,
{
    if !(from < 0 || from + 1 >= b.len()) && !(b[from] == x && b[from + 1] == y) {
        lemma_find_pair(b, from + 1, x, y);
    }
}

pub proof fn lemma_emphasis_close(b: Seq<u8>, m: u8, j: int)
    ensures
        emphasis_close(b, m, j) matches Some(p) ==> j <= p < b.len() && b[p] == m,
    decreases b.len() - j,
{
    if !(j < 1 || j >= b.len()) {
        lemma_emphasis_close(b, m, j + 1);
    }
}

/// The index just after the last `c` in `b`, or 0.
pub open spec fn after_last(b: Seq<u8>, c: u8) -> int
    decreases b.len(),
{
    if b.len() == 0 {
        0
    } else if b.last() == c {
        b.len() as int
    } else {
        after_last(b.drop_last(), c)
    }
}

/// ASCII lowercase of one byte.
pub open spec fn lower(x: u8) -> u8 {
    if 0x41 <= x <= 0x5A { (x + 32) as u8 } else { x }
}

/// Whether `e`, lowercased, is a known image extension.
pub open spec fn is_image_ext(e: Seq<u8>) -> bool {
    let l = e.map_values(|x: u8| lower(x));
    ||| l == seq![0x70u8, 0x6Eu8, 0x67u8]
    ||| l == seq![0x6Au8, 0x70u8, 0x67u8]
    ||| l == seq![0x6Au8, 0x70u8, 0x65u8, 0x67u8]
    ||| l == seq![0x67u8, 0x69u8, 0x66u8]
    ||| l == seq![0x62u8, 0x6Du8, 0x70u8]
    ||| l == seq![0x77u8, 0x65u8, 0x62u8, 0x70u8]
    ||| l == seq![0x73u8, 0x76u8, 0x67u8]
}

/// The `file:` prefix.
pub open spec fn file_prefix() -> Seq<u8> {
    seq![0x66u8, 0x69u8, 0x6Cu8, 0x65u8, 0x3Au8]
}

/// The image path of a link target — the target without a `file:` prefix — when its last
/// `.`-separated segment is a known image extension.
pub open spec fn image_path_spec(target: Seq<u8>) -> Option<Seq<u8>> {
    let p = if target.len() >= 5 && target.take(5) == file_prefix() { target.skip(5) } else { target };
    if is_image_ext(p.skip(after_last(p, 0x2E))) { Some(p) } else { None }
}

/// The text of `bytes` read as UTF-8 (empty when invalid).
pub open spec fn text_of(bytes: Seq<u8>) -> Seq<char> {
    if valid_utf8(bytes) { decode_utf8(bytes) } else { seq![] }
}

/// The reserved block for an image link on line `line_idx`.
pub open spec fn image_block(path: Seq<u8>, line_idx: int, rows: u16) -> VirtView {
    VirtView {
        after_line: line_idx as usize,
        height: rows,
        label: text_of(path.skip(after_last(path, 0x2F))),
        path: Some(text_of(path)),
    }
}

/// The inline decorations of line content `b` from byte `i`, offset by `base`.
pub open spec fn inline_from(b: Seq<u8>, i: int, base: int, line_idx: int, rows: u16) -> (Seq<Span>, Seq<VirtView>)
    decreases b.len() - i,
{
    if i < 0 || i >= b.len() {
        (seq![], seq![])
    } else {
        proof {
            lemma_find_pair(b, i + 2, 0x5D, 0x5D);
            lemma_emphasis_close(b, b[i], i + 2);
        }
        let link = if b[i] == 0x5B && byte_at(b, i + 1) == Some(0x5Bu8) {
            find_pair(b, i + 2, 0x5D, 0x5D)
        } else {
            None
        };
        match link {
            Some(close) => {
                let inner = b.subrange(i + 2, close);
                let (spans, virts) = match find_pair(inner, 0, 0x5D, 0x5B) {
                    Some(sep) => {
                        let label_start = i + 2 + sep + 2;
                        (
                            seq![
                                conceal(base + i, base + label_start),
                                faced(base + label_start, base + close, "markup.link"),
                                conceal(base + close, base + close + 2),
                            ],
                            seq![],
                        )
                    },
                    None => match image_path_spec(inner) {
                        Some(path) => (
                            seq![conceal(base + i, base + close + 2)],
                            seq![image_block(path, line_idx, rows)],
                        ),
                        None => (
                            seq![
                                conceal(base + i, base + i + 2),
                                faced(base + i + 2, base + close, "markup.link"),
                                conceal(base + close, base + close + 2),
                            ],
                            seq![],
                        ),
                    },
                };
                let rest = inline_from(b, close + 2, base, line_idx, rows);
                (spans + rest.0, virts + rest.1)
            },
            None => match emphasis_at(b, i) {
                Some((face, close)) => {
                    let rest = inline_from(b, close + 1, base, line_idx, rows);
                    (
                        seq![
                            conceal(base + i, base + i + 1),
                            faced(base + i + 1, base + close, face),
                            conceal(base + close, base + close + 1),
                        ] + rest.0,
                        rest.1,
                    )
                },
                None => inline_from(b, i + 1, base, line_idx, rows),
            },
        }
    }
}

/// Every byte of `b` from `from` on is a table-separator byte (`|`, `-`, `+`, space).
pub open spec fn table_separator(b: Seq<u8>, from: int) -> bool {
    forall|k: int|
        from <= k < b.len() ==> #[trigger] b[k] == 0x7C || b[k] == 0x2D || b[k] == 0x2B || b[k] == 0x20
}

/// A dimmed span for every `|` of `b` from `k` on.
pub open spec fn pipes_from(b: Seq<u8>, k: int, base: int) -> Seq<Span>
    decreases b.len() - k,
{
    if k < 0 || k >= b.len() {
        seq![]
    } else {
        (if b[k] == 0x7C { seq![faced(base + k, base + k + 1, "comment")] } else { seq![] })
            + pipes_from(b, k + 1, base)
    }
}

/// The glyph of a checkbox whose state byte is `x`.
pub open spec fn box_glyph(x: u8) -> &'static str {
    if x == 0x58 || x == 0x78 {
        "\u{2611} "
    } else if x == 0x20 {
        "\u{2610} "
    } else {
        "\u{2022} "
    }
}

/// The decorations of one line's content `b` (without its `\n`) starting at byte `base` of the
/// source: a heading, a table row, a list item, or plain inline markup.
pub open spec fn line_decor(b: Seq<u8>, base: int, line_idx: int, rows: u16) -> (Seq<Span>, Seq<VirtView>) {
    let stars = run_len(b, 0, 0x2A) as int;
    if stars > 0 && byte_at(b, stars) == Some(0x20u8) {
        (
            seq![
                conceal(base, base + stars + 1),
                faced(base + stars + 1, base + b.len(), "markup.heading"),
            ],
            seq![],
        )
    } else {
        let indent = run_len(b, 0, 0x20) as int;
        if byte_at(b, indent) == Some(0x7Cu8) {
            let head = if table_separator(b, indent) {
                seq![faced(base + indent, base + b.len(), "comment")]
            } else {
                pipes_from(b, 0, base)
            };
            let r = inline_from(b, indent, base, line_idx, rows);
            (head + r.0, r.1)
        } else if (byte_at(b, indent) == Some(0x2Du8) || byte_at(b, indent) == Some(0x2Bu8)) && byte_at(
            b,
            indent + 1,
        ) == Some(0x20u8) {
            let a = indent + 2;
            let glyph_end: (&'static str, int) = if b.len() - a >= 3 && b[a] == 0x5B && b[a + 2] == 0x5D {
                (box_glyph(b[a + 1]), if byte_at(b, indent + 5) == Some(0x20u8) { indent + 6 } else { indent + 5 })
            } else {
                ("\u{2022} ", indent + 2)
            };
            let r = inline_from(b, glyph_end.1, base, line_idx, rows);
            (seq![bullet(base + indent, base + glyph_end.1, glyph_end.0)] + r.0, r.1)
        } else {
            inline_from(b, 0, base, line_idx, rows)
        }
    }
}

/// The decorations of the lines of `src` from byte `pos` (the start of line `line_idx`) on,
/// for lines that intersect `vs..ve`.
pub open spec fn lines_decor(src: Seq<u8>, pos: int, line_idx: int, vs: usize, ve: usize, rows: u16) -> (Seq<Span>, Seq<VirtView>)
    decreases src.len() - pos,
{
    if pos < 0 || pos >= src.len() {
        (seq![], seq![])
    } else {
        proof {
            lemma_next_newline(src, pos);
        }
        let ends: (int, int) = match next_newline(src, pos) {
            Some(p) => (p, p + 1),
            None => (src.len() as int, src.len() as int),
        };
        let here = if pos < ve && ends.1 > vs {
            line_decor(src.subrange(pos, ends.0), pos, line_idx, rows)
        } else {
            (seq![], seq![])
        };
        let rest = lines_decor(src, ends.1, line_idx + 1, vs, ve, rows);
        (here.0 + rest.0, here.1 + rest.1)
    }
}

/// The Org decorations of `src` for the visible byte range `vs..ve` (nothing when `src` is not
/// valid UTF-8).
pub open spec fn decorations_of(src: Seq<u8>, vs: usize, ve: usize, rows: u16) -> (Seq<Span>, Seq<VirtView>) {
    if valid_utf8(src) {
        lines_decor(src, 0, 0, vs, ve, rows)
    } else {
        (seq![], seq![])
    }
}

/// The views of reserved blocks.
pub open spec fn virt_views(v: Seq<VirtLine>) -> Seq<VirtView> {
    v.map_values(|x: VirtLine| virt_view(x))
}

fn conceal_span(start: usize, end: usize) -> (r: Span)
    ensures
        r == conceal(start as int, end as int),
{
    Span { start, end, face: None, conceal: true, virt: None }
}

fn faced_span(start: usize, end: usize, name: &'static str) -> (r: Span)
    ensures
        r == faced(start as int, end as int, name),
{
    Span { start, end, face: Some(name), conceal: false, virt: None }
}

fn bullet_span(start: usize, end: usize, glyph: &'static str) -> (r: Span)
    ensures
        r == bullet(start as int, end as int, glyph),
{
    Span { start, end, face: None, conceal: true, virt: Some(glyph) }
}

fn get(b: &[u8], i: usize) -> (r: Option<u8>)
    ensures
        r == byte_at(b@, i as int),
{
    if i < b.len() {
        Some(b[i])
    } else {
        None
    }
}

/// A byte that may precede an OPENING emphasis marker.
fn pre_ok(c: Option<u8>) -> (r: bool)
    ensures
        r == pre_ok_spec(c),
{
    match c {
        None => true,
        Some(x) => x == 0x20 || x == 0x09 || x == 0x28 || x == 0x7B || x == 0x27 || x == 0x22,
    }
}

/// A byte that may follow a CLOSING emphasis marker.
fn post_ok(c: Option<u8>) -> (r: bool)
    ensures
        r == post_ok_spec(c),
{
    match c {
        None => true,
        Some(x) => x == 0x20 || x == 0x09 || x == 0x29 || x == 0x7D || x == 0x2E || x == 0x2C || x
            == 0x3B || x == 0x3A || x == 0x21 || x == 0x3F || x == 0x27 || x == 0x22,
    }
}

fn marker_face(m: u8) -> (r: Option<&'static str>)
    ensures
        r == emphasis_face(m),
{
    if m == 0x2A {
        Some("markup.strong")
    } else if m == 0x2F {
        Some("markup.emphasis")
    } else if m == 0x7E {
        Some("markup.code")
    } else if m == 0x3D {
        Some("markup.code")
    } else if m == 0x5F {
        Some("markup.emphasis")
    } else if m == 0x2B {
        Some("markup.strong")
    } else {
        None
    }
}

/// If a valid emphasis span opens at `b[i]`, its face and the byte index of its CLOSING marker.
fn try_emphasis(b: &[u8], i: usize) -> (r: Option<(&'static str, usize)>)
    requires
        i < b@.len(),
    ensures
        r matches Some((f, j)) ==> emphasis_at(b@, i as int) == Some((f, j as int)),
        r is None ==> emphasis_at(b@, i as int) is None,
{
    let m = b[i];
    let face = match marker_face(m) {
        Some(f) => f,
        None => {
            return None;
        },
    };
    let pre = if i == 0 { None } else { Some(b[i - 1]) };
    if !pre_ok(pre) {
        return None;
    }
    match get(b, i + 1) {
        Some(c) => {
            if c == 0x20 || c == 0x09 || c == m {
                return None;
            }
        },
        None => {
            return None;
        },
    }
    let mut j = i + 2;
    assert(emphasis_at(b@, i as int) == match emphasis_close(b@, m, i + 2) {
        Some(j) => Some((face, j)),
        None => None,
    });
    while j < b.len()
        invariant
            i + 2 <= j,
            i < b@.len(),
            m == b@[i as int],
            emphasis_at(b@, i as int) == match emphasis_close(b@, m, i + 2) {
                Some(j) => Some((face, j)),
                None => None,
            },
            emphasis_close(b@, m, j as int) == emphasis_close(b@, m, i + 2),
        decreases b.len() - j,
    {
        if b[j] == m && b[j - 1] != 0x20 && b[j - 1] != 0x09 && post_ok(get(b, j + 1)) {
            return Some((face, j));
        }
        j += 1;
    }
    None
}

/// The first `p >= from` with `b[p] == x` and `b[p + 1] == y`.
fn find_pair_at(b: &[u8], from: usize, x: u8, y: u8) -> (r: Option<usize>)
    ensures
        r matches Some(p) ==> find_pair(b@, from as int, x, y) == Some(p as int),
        r is None ==> find_pair(b@, from as int, x, y) is None,
{
    proof {
        lemma_find_pair(b@, from as int, x, y);
    }
    let mut k = from;
    while k < b.len() && b.len() - k >= 2
        invariant
            from <= k,
            find_pair(b@, k as int, x, y) == find_pair(b@, from as int, x, y),
        decreases b.len() - k,
    {
        if b[k] == x && b[k + 1] == y {
            return Some(k);
        }
        k += 1;
    }
    None
}

/// The index just after the last `c` in `b`, or 0.
fn after_last_of(b: &[u8], c: u8) -> (r: usize)
    ensures
        r == after_last(b@, c),
        r <= b@.len(),
{
    let mut j = b.len();
    assert(b@.take(j as int) =~= b@);
    while j > 0
        invariant
            j <= b@.len(),
            after_last(b@.take(j as int), c) == after_last(b@, c),
        decreases j,
    {
        assert(b@.take(j as int).drop_last() =~= b@.take(j - 1));
        if b[j - 1] == c {
            return j;
        }
        j -= 1;
    }
    0
}

fn lower_byte(x: u8) -> (r: u8)
    ensures
        r == lower(x),
{
    if 0x41 <= x && x <= 0x5A { x + 32 } else { x }
}

/// Whether `e`, lowercased, is one of the known image extensions.
fn image_ext(e: &[u8]) -> (r: bool)
    ensures
        r == is_image_ext(e@),
{
    let ghost l = e@.map_values(|x: u8| lower(x));
    let n = e.len();
    if n == 3 {
        let (a, b, c) = (lower_byte(e[0]), lower_byte(e[1]), lower_byte(e[2]));
        assert(l =~= seq![a, b, c]);
        (a == 0x70 && b == 0x6E && c == 0x67) || (a == 0x6A && b == 0x70 && c == 0x67) || (a == 0x67
            && b == 0x69 && c == 0x66) || (a == 0x62 && b == 0x6D && c == 0x70) || (a == 0x73 && b
            == 0x76 && c == 0x67)
    } else if n == 4 {
        let (a, b, c, d) = (lower_byte(e[0]), lower_byte(e[1]), lower_byte(e[2]), lower_byte(e[3]));
        assert(l =~= seq![a, b, c, d]);
        (a == 0x6A && b == 0x70 && c == 0x65 && d == 0x67) || (a == 0x77 && b == 0x65 && c == 0x62 && d
            == 0x70)
    } else {
        assert(l.len() != 3 && l.len() != 4);
        false
    }
}

/// The image file path if `target` is an Org image link destination — a `file:`-prefixed or bare
/// path whose extension is a known image type.
fn image_path(target: &[u8]) -> (r: Option<&[u8]>)
    ensures
        r matches Some(p) ==> image_path_spec(target@) == Some(p@),
        r is None ==> image_path_spec(target@) is None,
{
    let p: &[u8] = if target.len() >= 5 && target[0] == 0x66 && target[1] == 0x69 && target[2] == 0x6C
        && target[3] == 0x65 && target[4] == 0x3A {
        assert(target@.take(5) =~= file_prefix());
        let (_, rest) = target.split_at(5);
        assert(rest@ =~= target@.skip(5));
        rest
    } else {
        proof {
            if target@.len() >= 5 && target@.take(5) == file_prefix() {
                assert(target@.take(5)[0] == target@[0]);
                assert(target@.take(5)[1] == target@[1]);
                assert(target@.take(5)[2] == target@[2]);
                assert(target@.take(5)[3] == target@[3]);
                assert(target@.take(5)[4] == target@[4]);
            }
        }
        target
    };
    let dot = after_last_of(p, 0x2E);
    let (_, ext) = p.split_at(dot);
    assert(ext@ =~= p@.skip(dot as int));
    if image_ext(ext) {
        Some(p)
    } else {
        None
    }
}

/// The text of `bytes` read as UTF-8 (empty when invalid).
fn text_string(bytes: &[u8]) -> (r: String)
    ensures
        r@ == text_of(bytes@),
{
    match utf8_str(bytes) {
        Some(s) => {
            proof {
                crate::text::lemma_str_bytes(s);
            }
            owned(s)
        },
        None => String::new(),
    }
}

/// The inline decorations of line content `b` from byte `from` (links, images, emphasis), offset
/// by `base`, appended to `out` / `out_virt`.
fn scan_inline(
    b: &[u8],
    from: usize,
    base: usize,
    line_idx: usize,
    image_rows: u16,
    out: &mut Vec<Span>,
    out_virt: &mut Vec<VirtLine>,
)
    requires
        from <= b@.len(),
        base + b@.len() <= usize::MAX,
    ensures
        final(out)@ == old(out)@ + inline_from(b@, from as int, base as int, line_idx as int, image_rows).0,
        virt_views(final(out_virt)@) == virt_views(old(out_virt)@) + inline_from(
            b@,
            from as int,
            base as int,
            line_idx as int,
            image_rows,
        ).1,
{
    let ghost total = inline_from(b@, from as int, base as int, line_idx as int, image_rows);
    let mut i = from;
    while i < b.len()
        invariant
            from <= i <= b@.len(),
            base + b@.len() <= usize::MAX,
            out@ + inline_from(b@, i as int, base as int, line_idx as int, image_rows).0 == old(out)@ + total.0,
            virt_views(out_virt@) + inline_from(b@, i as int, base as int, line_idx as int, image_rows).1
                == virt_views(old(out_virt)@) + total.1,
        decreases b.len() - i,
    {
        let ghost cur = inline_from(b@, i as int, base as int, line_idx as int, image_rows);
        let ghost out0 = out@;
        let ghost virt0 = virt_views(out_virt@);
        proof {
            lemma_find_pair(b@, i + 2, 0x5D, 0x5D);
            lemma_emphasis_close(b@, b@[i as int], i + 2);
        }
        if b[i] == 0x5B && get(b, i + 1) == Some(0x5Bu8) {
            match find_pair_at(b, i + 2, 0x5D, 0x5D) {
                Some(close) => {
                    let inner = &b[i + 2..close];
                    assert(inner@ =~= b@.subrange(i + 2, close as int));
                    proof {
                        lemma_find_pair(inner@, 0, 0x5D, 0x5B);
                    }
                    let ghost rest = inline_from(b@, close + 2, base as int, line_idx as int, image_rows);
                    match find_pair_at(inner, 0, 0x5D, 0x5B) {
                        Some(sep) => {
                            let label_start = i + 2 + sep + 2;
                            out.push(conceal_span(base + i, base + label_start));
                            out.push(faced_span(base + label_start, base + close, "markup.link"));
                            out.push(conceal_span(base + close, base + close + 2));
                            assert(out@ + rest.0 =~= out0 + cur.0);
                            assert(virt0 + rest.1 =~= virt0 + cur.1);
                        },
                        None => {
                            match image_path(inner) {
                                Some(path) => {
                                    out.push(conceal_span(base + i, base + close + 2));
                                    let slash = after_last_of(path, 0x2F);
                                    let (_, name) = path.split_at(slash);
                                    assert(name@ =~= path@.skip(slash as int));
                                    let v = VirtLine {
                                        after_line: line_idx,
                                        height: image_rows,
                                        label: text_string(name),
                                        path: Some(text_string(path)),
                                    };
                                    let ghost vb = virt_views(out_virt@);
                                    out_virt.push(v);
                                    assert(virt_views(out_virt@) =~= vb.push(virt_view(v)));
                                    assert(out@ + rest.0 =~= out0 + cur.0);
                                    assert(virt_views(out_virt@) + rest.1 =~= virt0 + cur.1);
                                },
                                None => {
                                    out.push(conceal_span(base + i, base + i + 2));
                                    out.push(faced_span(base + i + 2, base + close, "markup.link"));
                                    out.push(conceal_span(base + close, base + close + 2));
                                    assert(out@ + rest.0 =~= out0 + cur.0);
                                    assert(virt0 + rest.1 =~= virt0 + cur.1);
                                },
                            }
                        },
                    }
                    i = close + 2;
                    continue ;
                },
                None => {},
            }
        }
        match try_emphasis(b, i) {
            Some((face, close)) => {
                let ghost rest = inline_from(b@, close + 1, base as int, line_idx as int, image_rows);
                out.push(conceal_span(base + i, base + i + 1));
                out.push(faced_span(base + i + 1, base + close, face));
                out.push(conceal_span(base + close, base + close + 1));
                assert(out@ + rest.0 =~= out0 + cur.0);
                i = close + 1;
                continue ;
            },
            None => {},
        }
        i += 1;
    }
}

/// The length of the run of `c` bytes at the start of `b`.
fn leading_run(b: &[u8], c: u8) -> (r: usize)
    ensures
        r == run_len(b@, 0, c),
        r <= b@.len(),
{
    let mut k: usize = 0;
    while k < b.len() && b[k] == c
        invariant
            k <= b@.len(),
            run_len(b@, 0, c) == k + run_len(b@, k as int, c),
        decreases b.len() - k,
    {
        k += 1;
    }
    k
}

/// Whether every byte from `from` on is a table-separator byte.
fn all_separator(b: &[u8], from: usize) -> (r: bool)
    requires
        from <= b@.len(),
    ensures
        r == table_separator(b@, from as int),
{
    let mut k = from;
    while k < b.len()
        invariant
            from <= k <= b@.len(),
            forall|j: int| from <= j < k ==> #[trigger] b@[j] == 0x7C || b@[j] == 0x2D || b@[j] == 0x2B
                || b@[j] == 0x20,
        decreases b.len() - k,
    {
        let x = b[k];
        if !(x == 0x7C || x == 0x2D || x == 0x2B || x == 0x20) {
            return false;
        }
        k += 1;
    }
    true
}

/// Dim every `|` of the line.
fn push_pipes(b: &[u8], base: usize, out: &mut Vec<Span>)
    requires
        base + b@.len() <= usize::MAX,
    ensures
        final(out)@ == old(out)@ + pipes_from(b@, 0, base as int),
{
    let mut k: usize = 0;
    while k < b.len()
        invariant
            k <= b@.len(),
            base + b@.len() <= usize::MAX,
            out@ + pipes_from(b@, k as int, base as int) == old(out)@ + pipes_from(b@, 0, base as int),
        decreases b.len() - k,
    {
        let ghost o0 = out@;
        let ghost rest = pipes_from(b@, k + 1, base as int);
        if b[k] == 0x7C {
            out.push(faced_span(base + k, base + k + 1, "comment"));
        }
        assert(out@ + rest =~= o0 + pipes_from(b@, k as int, base as int));
        k += 1;
    }
}

/// The decorations of one line's content (without its `\n`) starting at byte `base` of the source.
fn scan_line(
    content: &[u8],
    base: usize,
    line_idx: usize,
    image_rows: u16,
    out: &mut Vec<Span>,
    out_virt: &mut Vec<VirtLine>,
)
    requires
        base + content@.len() <= usize::MAX,
    ensures
        final(out)@ == old(out)@ + line_decor(content@, base as int, line_idx as int, image_rows).0,
        virt_views(final(out_virt)@) == virt_views(old(out_virt)@) + line_decor(
            content@,
            base as int,
            line_idx as int,
            image_rows,
        ).1,
{
    let b = content;
    let ghost d = line_decor(b@, base as int, line_idx as int, image_rows);
    let stars = leading_run(b, 0x2A);
    if stars > 0 && get(b, stars) == Some(0x20u8) {
        out.push(conceal_span(base, base + stars + 1));
        out.push(faced_span(base + stars + 1, base + b.len(), "markup.heading"));
        assert(out@ =~= old(out)@ + d.0);
        assert(virt_views(out_virt@) =~= virt_views(old(out_virt)@) + d.1);
        return;
    }
    let indent = leading_run(b, 0x20);
    if get(b, indent) == Some(0x7Cu8) {
        if all_separator(b, indent) {
            out.push(faced_span(base + indent, base + b.len(), "comment"));
        } else {
            push_pipes(b, base, out);
        }
        let ghost head = out@;
        scan_inline(b, indent, base, line_idx, image_rows, out, out_virt);
        assert(out@ =~= old(out)@ + d.0);
        return;
    }
    let first = get(b, indent);
    if (first == Some(0x2Du8) || first == Some(0x2Bu8)) && get(b, indent + 1) == Some(0x20u8) {
        let a = indent + 2;
        let (glyph, prefix_end): (&'static str, usize) = if b.len() - a >= 3 && b[a] == 0x5B && b[a
            + 2] == 0x5D {
            let g = if b[a + 1] == 0x58 || b[a + 1] == 0x78 {
                "\u{2611} "
            } else if b[a + 1] == 0x20 {
                "\u{2610} "
            } else {
                "\u{2022} "
            };
            let mut pe = indent + 2 + 3;
            if get(b, pe) == Some(0x20u8) {
                pe += 1;
            }
            (g, pe)
        } else {
            ("\u{2022} ", indent + 2)
        };
        out.push(bullet_span(base + indent, base + prefix_end, glyph));
        scan_inline(b, prefix_end, base, line_idx, image_rows, out, out_virt);
        assert(out@ =~= old(out)@ + d.0);
        return;
    }
    scan_inline(b, 0, base, line_idx, image_rows, out, out_virt);
}

/// Org decorations for the `visible` byte range of `src`. Line-oriented: headings (leading `*`
/// run), list bullets / checkboxes, tables, inline links and emphasis, and inline images — a
/// description-less `[[file:x.png]]` link conceals its markup and reserves an `image_rows`-tall
/// block below its line.
pub fn decorations(src: &[u8], visible: &std::ops::Range<usize>, image_rows: u16) -> (r: (
    Vec<Span>,
    Vec<VirtLine>,
))
    ensures
        r.0@ == decorations_of(src@, visible.start, visible.end, image_rows).0,
        virt_views(r.1@) == decorations_of(src@, visible.start, visible.end, image_rows).1,
{
    let mut spans: Vec<Span> = Vec::new();
    let mut virt: Vec<VirtLine> = Vec::new();
    if utf8_str(src).is_none() {
        assert(virt_views(virt@) =~= Seq::<VirtView>::empty());
        return (spans, virt);
    }
    let vs = visible.start;
    let ve = visible.end;
    let ghost total = lines_decor(src@, 0, 0, vs, ve, image_rows);
    let mut base: usize = 0;
    let mut line_idx: usize = 0;
    assert(virt_views(virt@) =~= Seq::<VirtView>::empty());
    while base < src.len()
        invariant
            base <= src@.len(),
            src@.len() == src.len(),
            line_idx <= base,
            spans@ + lines_decor(src@, base as int, line_idx as int, vs, ve, image_rows).0 == total.0,
            virt_views(virt@) + lines_decor(src@, base as int, line_idx as int, vs, ve, image_rows).1
                == total.1,
        decreases src.len() - base,
    {
        let ghost s0 = spans@;
        let ghost v0 = virt_views(virt@);
        proof {
            lemma_next_newline(src@, base as int);
        }
        let (content_end, line_end) = match crate::lsp::model::find_newline(src, base) {
            Some(p) => (p, p + 1),
            None => (src.len(), src.len()),
        };
        let ghost rest = lines_decor(src@, line_end as int, line_idx + 1, vs, ve, image_rows);
        if base < ve && line_end > vs {
            let content = &src[base..content_end];
            assert(content@ =~= src@.subrange(base as int, content_end as int));
            scan_line(content, base, line_idx, image_rows, &mut spans, &mut virt);
        }
        assert(spans@ + rest.0 =~= s0 + lines_decor(src@, base as int, line_idx as int, vs, ve, image_rows).0);
        assert(virt_views(virt@) + rest.1 =~= v0 + lines_decor(src@, base as int, line_idx as int, vs, ve, image_rows).1);
        base = line_end;
        line_idx += 1;
    }
    (spans, virt)
}

/// Every span of `spans` is a byte range `start..end` with `lo <= start <= end <= hi`.
pub open spec fn spans_in(spans: Seq<Span>, lo: int, hi: int) -> bool {
    forall|k: int|
        0 <= k < spans.len() ==> lo <= #[trigger] spans[k].start && spans[k].start <= spans[k].end && spans[k].end
            <= hi
}

proof fn lemma_spans_concat(a: Seq<Span>, b: Seq<Span>, lo: int, hi: int)
    requires
        spans_in(a, lo, hi),
        spans_in(b, lo, hi),
    ensures
        spans_in(a + b, lo, hi),
{
    assert forall|k: int| 0 <= k < (a + b).len() implies lo <= #[trigger] (a + b)[k].start && (a + b)[k].start <= (a
        + b)[k].end && (a + b)[k].end <= hi by {
        if k < a.len() {
            assert((a + b)[k] == a[k]);
        } else {
            assert((a + b)[k] == b[k - a.len()]);
        }
    }
}

proof fn lemma_run_len(b: Seq<u8>, i: int, c: u8)
    requires
        0 <= i,
    ensures
        i + run_len(b, i, c) <= b.len() || run_len(b, i, c) == 0,
    decreases b.len() - i,
{
    if 0 <= i < b.len() && b[i] == c {
        lemma_run_len(b, i + 1, c);
    }
}

proof fn lemma_inline_in(b: Seq<u8>, i: int, base: int, line_idx: int, rows: u16)
    requires
        0 <= i,
        0 <= base,
        base + b.len() <= usize::MAX,
    ensures
        spans_in(inline_from(b, i, base, line_idx, rows).0, base, base + b.len()),
    decreases b.len() - i,
{
    if i < b.len() {
        lemma_find_pair(b, i + 2, 0x5D, 0x5D);
        lemma_emphasis_close(b, b[i], i + 2);
        let hi = base + b.len();
        let link = if b[i] == 0x5B && byte_at(b, i + 1) == Some(0x5Bu8) {
            find_pair(b, i + 2, 0x5D, 0x5D)
        } else {
            None
        };
        match link {
            Some(close) => {
                let inner = b.subrange(i + 2, close);
                lemma_find_pair(inner, 0, 0x5D, 0x5B);
                lemma_inline_in(b, close + 2, base, line_idx, rows);
                let rest = inline_from(b, close + 2, base, line_idx, rows);
                let spans: Seq<Span> = match find_pair(inner, 0, 0x5D, 0x5B) {
                    Some(sep) => {
                        let label_start = i + 2 + sep + 2;
                        seq![
                            conceal(base + i, base + label_start),
                            faced(base + label_start, base + close, "markup.link"),
                            conceal(base + close, base + close + 2),
                        ]
                    },
                    None => match image_path_spec(inner) {
                        Some(path) => seq![conceal(base + i, base + close + 2)],
                        None => seq![
                            conceal(base + i, base + i + 2),
                            faced(base + i + 2, base + close, "markup.link"),
                            conceal(base + close, base + close + 2),
                        ],
                    },
                };
                assert(spans_in(spans, base, hi));
                lemma_spans_concat(spans, rest.0, base, hi);
                assert(inline_from(b, i, base, line_idx, rows).0 == spans + rest.0);
            },
            None => match emphasis_at(b, i) {
                Some((face, close)) => {
                    lemma_inline_in(b, close + 1, base, line_idx, rows);
                    let rest = inline_from(b, close + 1, base, line_idx, rows);
                    let spans = seq![
                        conceal(base + i, base + i + 1),
                        faced(base + i + 1, base + close, face),
                        conceal(base + close, base + close + 1),
                    ];
                    assert(spans_in(spans, base, hi));
                    lemma_spans_concat(spans, rest.0, base, hi);
                },
                None => {
                    lemma_inline_in(b, i + 1, base, line_idx, rows);
                },
            },
        }
    }
}

proof fn lemma_pipes_in(b: Seq<u8>, k: int, base: int)
    requires
        0 <= k,
        0 <= base,
        base + b.len() <= usize::MAX,
    ensures
        spans_in(pipes_from(b, k, base), base, base + b.len()),
    decreases b.len() - k,
{
    if k < b.len() {
        lemma_pipes_in(b, k + 1, base);
        let one: Seq<Span> = if b[k] == 0x7C { seq![faced(base + k, base + k + 1, "comment")] } else { seq![] };
        assert(spans_in(one, base, base + b.len()));
        lemma_spans_concat(one, pipes_from(b, k + 1, base), base, base + b.len());
    }
}

proof fn lemma_line_in(b: Seq<u8>, base: int, line_idx: int, rows: u16)
    requires
        0 <= base,
        base + b.len() <= usize::MAX,
    ensures
        spans_in(line_decor(b, base, line_idx, rows).0, base, base + b.len()),
{
    let hi = base + b.len();
    let stars = run_len(b, 0, 0x2A) as int;
    lemma_run_len(b, 0, 0x2A);
    lemma_run_len(b, 0, 0x20);
    if stars > 0 && byte_at(b, stars) == Some(0x20u8) {
        let spans = seq![conceal(base, base + stars + 1), faced(base + stars + 1, base + b.len(), "markup.heading")];
        assert(spans_in(spans, base, hi));
    } else {
        let indent = run_len(b, 0, 0x20) as int;
        if byte_at(b, indent) == Some(0x7Cu8) {
            let head = if table_separator(b, indent) {
                seq![faced(base + indent, base + b.len(), "comment")]
            } else {
                lemma_pipes_in(b, 0, base);
                pipes_from(b, 0, base)
            };
            assert(spans_in(head, base, hi));
            lemma_inline_in(b, indent, base, line_idx, rows);
            lemma_spans_concat(head, inline_from(b, indent, base, line_idx, rows).0, base, hi);
        } else if (byte_at(b, indent) == Some(0x2Du8) || byte_at(b, indent) == Some(0x2Bu8)) && byte_at(b, indent + 1)
            == Some(0x20u8) {
            let a = indent + 2;
            let glyph_end: (&'static str, int) = if b.len() - a >= 3 && b[a] == 0x5B && b[a + 2] == 0x5D {
                (box_glyph(b[a + 1]), if byte_at(b, indent + 5) == Some(0x20u8) { indent + 6 } else { indent + 5 })
            } else {
                ("\u{2022} ", indent + 2)
            };
            let head = seq![bullet(base + indent, base + glyph_end.1, glyph_end.0)];
            assert(spans_in(head, base, hi));
            lemma_inline_in(b, glyph_end.1, base, line_idx, rows);
            lemma_spans_concat(head, inline_from(b, glyph_end.1, base, line_idx, rows).0, base, hi);
        } else {
            lemma_inline_in(b, 0, base, line_idx, rows);
        }
    }
}

proof fn lemma_lines_in(src: Seq<u8>, pos: int, line_idx: int, vs: usize, ve: usize, rows: u16)
    requires
        0 <= pos,
        src.len() <= usize::MAX,
    ensures
        spans_in(lines_decor(src, pos, line_idx, vs, ve, rows).0, 0, src.len() as int),
    decreases src.len() - pos,
{
    if pos < src.len() {
        lemma_next_newline(src, pos);
        let ends: (int, int) = match next_newline(src, pos) {
            Some(p) => (p, p + 1),
            None => (src.len() as int, src.len() as int),
        };
        let here: Seq<Span> = if pos < ve && ends.1 > vs {
            lemma_line_in(src.subrange(pos, ends.0), pos, line_idx, rows);
            line_decor(src.subrange(pos, ends.0), pos, line_idx, rows).0
        } else {
            seq![]
        };
        assert(spans_in(here, 0, src.len() as int));
        lemma_lines_in(src, ends.1, line_idx + 1, vs, ve, rows);
        lemma_spans_concat(here, lines_decor(src, ends.1, line_idx + 1, vs, ve, rows).0, 0, src.len() as int);
    }
}

/// Law: every decoration is a byte range of the source, `start <= end <= src.len()`.
pub proof fn law_spans_within_source(src: Seq<u8>, vs: usize, ve: usize, rows: u16)
    requires
        src.len() <= usize::MAX,
    ensures
        spans_in(decorations_of(src, vs, ve, rows).0, 0, src.len() as int),
{
    lemma_lines_in(src, 0, 0, vs, ve, rows);
}


/// The number of lines of `src`: its `\n`-terminated lines, plus a final unterminated one.
pub open spec fn line_count(src: Seq<u8>) -> nat {
    if src.len() == 0 {
        0
    } else if src.last() == LF {
        count_lf(src)
    } else {
        count_lf(src) + 1
    }
}

/// Every reserved block of `v` sits below line `lo` or a later one before `hi`, `rows` tall.
pub open spec fn blocks_in(v: Seq<VirtView>, lo: int, hi: int, rows: u16) -> bool {
    forall|k: int| 0 <= k < v.len() ==> lo <= #[trigger] v[k].after_line < hi && v[k].height == rows
}

proof fn lemma_blocks_concat(a: Seq<VirtView>, b: Seq<VirtView>, lo: int, hi: int, rows: u16)
    requires
        blocks_in(a, lo, hi, rows),
        blocks_in(b, lo, hi, rows),
    ensures
        blocks_in(a + b, lo, hi, rows),
{
    assert forall|k: int| 0 <= k < (a + b).len() implies lo <= #[trigger] (a + b)[k].after_line < hi && (a
        + b)[k].height == rows by {
        if k < a.len() {
            assert((a + b)[k] == a[k]);
        } else {
            assert((a + b)[k] == b[k - a.len()]);
        }
    }
}

proof fn lemma_inline_blocks(b: Seq<u8>, i: int, base: int, line_idx: int, rows: u16)
    requires
        0 <= i,
        0 <= line_idx < usize::MAX,
    ensures
        blocks_in(inline_from(b, i, base, line_idx, rows).1, line_idx, line_idx + 1, rows),
    decreases b.len() - i,
{
    if i < b.len() {
        lemma_find_pair(b, i + 2, 0x5D, 0x5D);
        lemma_emphasis_close(b, b[i], i + 2);
        let link = if b[i] == 0x5B && byte_at(b, i + 1) == Some(0x5Bu8) {
            find_pair(b, i + 2, 0x5D, 0x5D)
        } else {
            None
        };
        match link {
            Some(close) => {
                let inner = b.subrange(i + 2, close);
                lemma_inline_blocks(b, close + 2, base, line_idx, rows);
                let rest = inline_from(b, close + 2, base, line_idx, rows);
                let virts: Seq<VirtView> = match find_pair(inner, 0, 0x5D, 0x5B) {
                    Some(sep) => seq![],
                    None => match image_path_spec(inner) {
                        Some(path) => seq![image_block(path, line_idx, rows)],
                        None => seq![],
                    },
                };
                assert(blocks_in(virts, line_idx, line_idx + 1, rows));
                lemma_blocks_concat(virts, rest.1, line_idx, line_idx + 1, rows);
                assert(inline_from(b, i, base, line_idx, rows).1 == virts + rest.1);
            },
            None => match emphasis_at(b, i) {
                Some((face, close)) => {
                    lemma_inline_blocks(b, close + 1, base, line_idx, rows);
                },
                None => {
                    lemma_inline_blocks(b, i + 1, base, line_idx, rows);
                },
            },
        }
    }
}

proof fn lemma_line_blocks(b: Seq<u8>, base: int, line_idx: int, rows: u16)
    requires
        0 <= line_idx < usize::MAX,
    ensures
        blocks_in(line_decor(b, base, line_idx, rows).1, line_idx, line_idx + 1, rows),
{
    let stars = run_len(b, 0, 0x2A) as int;
    lemma_run_len(b, 0, 0x2A);
    lemma_run_len(b, 0, 0x20);
    if !(stars > 0 && byte_at(b, stars) == Some(0x20u8)) {
        let indent = run_len(b, 0, 0x20) as int;
        let a = indent + 2;
        let glyph_end: (&'static str, int) = if b.len() - a >= 3 && b[a] == 0x5B && b[a + 2] == 0x5D {
            (box_glyph(b[a + 1]), if byte_at(b, indent + 5) == Some(0x20u8) { indent + 6 } else { indent + 5 })
        } else {
            ("\u{2022} ", indent + 2)
        };
        lemma_inline_blocks(b, indent, base, line_idx, rows);
        lemma_inline_blocks(b, glyph_end.1, base, line_idx, rows);
        lemma_inline_blocks(b, 0, base, line_idx, rows);
    }
}

/// No `\n` from `from` on when none is found there.
proof fn lemma_no_newline_after(bytes: Seq<u8>, from: int)
    requires
        0 <= from,
        next_newline(bytes, from) is None,
    ensures
        forall|k: int| from <= k < bytes.len() ==> #[trigger] bytes[k] != LF,
    decreases bytes.len() - from,
{
    if from < bytes.len() {
        lemma_no_newline_after(bytes, from + 1);
    }
}

/// The lines from `pos` on: one for the line starting there, then those after its `\n`.
proof fn lemma_line_count_step(src: Seq<u8>, pos: int)
    requires
        0 <= pos < src.len(),
    ensures
        next_newline(src, pos) matches Some(p) ==> line_count(src.skip(pos)) == 1 + line_count(src.skip(p + 1)),
        next_newline(src, pos) is None ==> line_count(src.skip(pos)) == 1,
{
    let s = src.skip(pos);
    lemma_next_newline(src, pos);
    lemma_next_newline_count(src, pos);
    match next_newline(src, pos) {
        Some(p) => {
            let r = src.skip(p + 1);
            if p + 1 < src.len() {
                assert(s.last() == src.last());
                assert(r.last() == src.last());
            } else {
                assert(s.last() == src[p]);
                assert(r.len() == 0);
            }
        },
        None => {
            lemma_no_newline_after(src, pos);
            assert(s.last() == src[src.len() - 1]);
        },
    }
}

proof fn lemma_lines_blocks(src: Seq<u8>, pos: int, line_idx: int, vs: usize, ve: usize, rows: u16)
    requires
        0 <= pos <= src.len(),
        0 <= line_idx,
        line_idx + src.len() - pos <= usize::MAX,
    ensures
        blocks_in(
            lines_decor(src, pos, line_idx, vs, ve, rows).1,
            line_idx,
            line_idx + line_count(src.skip(pos)),
            rows,
        ),
    decreases src.len() - pos,
{
    if pos < src.len() {
        lemma_next_newline(src, pos);
        lemma_line_count_step(src, pos);
        let ends: (int, int) = match next_newline(src, pos) {
            Some(p) => (p, p + 1),
            None => (src.len() as int, src.len() as int),
        };
        let hi = line_idx + line_count(src.skip(pos));
        let here: Seq<VirtView> = if pos < ve && ends.1 > vs {
            lemma_line_blocks(src.subrange(pos, ends.0), pos, line_idx, rows);
            line_decor(src.subrange(pos, ends.0), pos, line_idx, rows).1
        } else {
            seq![]
        };
        assert(blocks_in(here, line_idx, hi, rows));
        lemma_lines_blocks(src, ends.1, line_idx + 1, vs, ve, rows);
        if ends.1 == src.len() {
            assert(src.skip(ends.1).len() == 0);
        }
        let rest = lines_decor(src, ends.1, line_idx + 1, vs, ve, rows).1;
        assert(blocks_in(rest, line_idx, hi, rows));
        lemma_blocks_concat(here, rest, line_idx, hi, rows);
    } else {
        assert(src.skip(pos).len() == 0);
    }
}

/// Law: every reserved image block is `rows` tall and sits below a line of the source.
pub proof fn law_blocks_below_source_lines(src: Seq<u8>, vs: usize, ve: usize, rows: u16)
    requires
        src.len() <= usize::MAX,
    ensures
        blocks_in(decorations_of(src, vs, ve, rows).1, 0, line_count(src) as int, rows),
{
    lemma_lines_blocks(src, 0, 0, vs, ve, rows);
    assert(src.skip(0) =~= src);
}

proof fn lemma_lines_outside(src: Seq<u8>, pos: int, line_idx: int, vs: usize, ve: usize, rows: u16)
    requires
        0 <= pos,
        ve <= pos || vs >= src.len(),
    ensures
        lines_decor(src, pos, line_idx, vs, ve, rows) == (Seq::<Span>::empty(), Seq::<VirtView>::empty()),
    decreases src.len() - pos,
{
    if pos < src.len() {
        lemma_next_newline(src, pos);
        let ends: (int, int) = match next_newline(src, pos) {
            Some(p) => (p, p + 1),
            None => (src.len() as int, src.len() as int),
        };
        lemma_lines_outside(src, ends.1, line_idx + 1, vs, ve, rows);
        assert(Seq::<Span>::empty() + Seq::<Span>::empty() =~= Seq::<Span>::empty());
        assert(Seq::<VirtView>::empty() + Seq::<VirtView>::empty() =~= Seq::<VirtView>::empty());
    }
}

/// Law: a source that is not UTF-8, an empty view at the start, or a view past the end of the
/// source gets no decoration and no reserved block.
pub proof fn law_nothing_outside_view(src: Seq<u8>, vs: usize, ve: usize, rows: u16)
    requires
        !valid_utf8(src) || ve == 0 || vs >= src.len(),
    ensures
        decorations_of(src, vs, ve, rows).0.len() == 0,
        decorations_of(src, vs, ve, rows).1.len() == 0,
{
    if valid_utf8(src) {
        lemma_lines_outside(src, 0, 0, vs, ve, rows);
    }
}


/// The closing search skips bytes that are not the marker.
proof fn lemma_emphasis_close_skip(b: Seq<u8>, m: u8, j: int, to: int)
    requires
        1 <= j <= to < b.len(),
        forall|k: int| j <= k < to ==> #[trigger] b[k] != m,
    ensures
        emphasis_close(b, m, j) == emphasis_close(b, m, to),
    decreases to - j,
{
    if j < to {
        lemma_emphasis_close_skip(b, m, j + 1, to);
    }
}

/// Leading spaces of a line carry no inline decoration.
proof fn lemma_inline_spaces(b: Seq<u8>, i: int, k: int, base: int, line_idx: int, rows: u16)
    requires
        0 <= i <= k <= b.len(),
        forall|x: int| i <= x < k ==> #[trigger] b[x] == 0x20,
    ensures
        inline_from(b, i, base, line_idx, rows) == inline_from(b, k, base, line_idx, rows),
    decreases k - i,
{
    if i < k {
        assert(b[i] == 0x20);
        lemma_inline_spaces(b, i + 1, k, base, line_idx, rows);
    }
}

/// The emphasis opened at `k` of a line and closed at `j`: both markers concealed and the text
/// between them faced, then the rest of the line.
proof fn lemma_inline_emphasis(b: Seq<u8>, k: int, j: int, m: u8, face: &'static str, rows: u16)
    requires
        0 <= k,
        k + 1 < j < b.len(),
        j + 1 <= usize::MAX,
        k == 0 || b[k - 1] == 0x20,
        b[k] == m,
        b[j] == m,
        emphasis_face(m) == Some(face),
        b[k + 1] != 0x20 && b[k + 1] != 0x09 && b[k + 1] != m,
        b[j - 1] != 0x20 && b[j - 1] != 0x09,
        forall|x: int| k + 2 <= x < j ==> #[trigger] b[x] != m,
        byte_at(b, j + 1) is None || byte_at(b, j + 1) == Some(0x20u8),
    ensures
        inline_from(b, k, 0, 0, rows).0 == seq![conceal(k, k + 1), faced(k + 1, j, face), conceal(j, j + 1)]
            + inline_from(b, j + 1, 0, 0, rows).0,
{
    if k + 2 < j {
        lemma_emphasis_close_skip(b, m, k + 2, j);
    }
    assert(emphasis_close(b, m, j) == Some(j));
    assert(emphasis_at(b, k) == Some((face, j)));
    assert(b[k] != 0x5B);
}

/// A line of leading spaces and then an emphasis marker is neither a heading, a table row nor a
/// list item: its decorations are its inline ones.
proof fn lemma_line_is_inline(b: Seq<u8>, k: int, m: u8, rows: u16)
    requires
        0 <= k,
        k + 1 < b.len(),
        forall|x: int| 0 <= x < k ==> #[trigger] b[x] == 0x20,
        b[k] == m,
        m != 0x20 && m != 0x7C && m != 0x2D,
        b[k + 1] != 0x20 && b[k + 1] != m,
    ensures
        line_decor(b, 0, 0, rows) == inline_from(b, 0, 0, 0, rows),
{
    lemma_run_len_spaces(b, 0, k);
    if k == 0 && m == 0x2A {
        assert(run_len(b, 1, 0x2A) == 0);
        assert(run_len(b, 0, 0x2A) == 1);
    } else {
        assert(run_len(b, 0, 0x2A) == 0);
    }
}

/// Law: an emphasis span `<m>text<m>` after the leading spaces of a line is drawn as the
/// original does for each marker of its table: both markers concealed and the text between them
/// drawn with the marker's face: `*` strong, `/` emphasis, `~` code, `=` code, `_` emphasis,
/// `+` strong. The text must start with neither a blank nor the marker, end without a blank, and
/// hold no marker and no line break; the closing marker ends the line or is followed by a space.
pub proof fn law_emphasis_conceals_markers_and_faces_text(
    sp: Seq<u8>,
    m: u8,
    t: Seq<u8>,
    q: Seq<u8>,
    face: &'static str,
    vs: usize,
    ve: usize,
    rows: u16,
)
    requires
        (m == 0x2A && face == "markup.strong") || (m == 0x2F && face == "markup.emphasis") || (m == 0x7E
            && face == "markup.code") || (m == 0x3D && face == "markup.code") || (m == 0x5F && face
            == "markup.emphasis") || (m == 0x2B && face == "markup.strong"),
        forall|x: int| 0 <= x < sp.len() ==> #[trigger] sp[x] == 0x20,
        t.len() >= 1,
        t[0] != 0x20 && t[0] != 0x09 && t[0] != m,
        t.last() != 0x20 && t.last() != 0x09,
        forall|x: int| 0 <= x < t.len() ==> #[trigger] t[x] != m && t[x] != LF,
        q.len() == 0 || q[0] == 0x20 || q[0] == LF,
        valid_utf8(sp + seq![m] + t + seq![m] + q),
        sp.len() + t.len() + q.len() + 2 <= usize::MAX,
        vs <= sp.len(),
        ve > 0,
    ensures
        ({
            let src = sp + seq![m] + t + seq![m] + q;
            let spans = decorations_of(src, vs, ve, rows).0;
            let k = sp.len() as int;
            let j = k + 1 + t.len();
            &&& spans.len() >= 3
            &&& spans[0].start == k && spans[0].end == k + 1 && spans[0].conceal
            &&& spans[1].start == k + 1 && spans[1].end == j && spans[1].face == Some(face) && !spans[1].conceal
            &&& spans[2].start == j && spans[2].end == j + 1 && spans[2].conceal
        }),
{
    let src = sp + seq![m] + t + seq![m] + q;
    let k = sp.len() as int;
    let j = k + 1 + t.len();
    assert forall|x: int| 0 <= x < j + 1 implies #[trigger] src[x] != LF by {
        if x < k {
            assert(src[x] == sp[x]);
        } else if x == k || x == j {
        } else {
            assert(src[x] == t[x - k - 1]);
        }
    }
    lemma_next_newline_skip(src, 0, j + 1);
    lemma_next_newline(src, j + 1);
    let e0: int = match next_newline(src, 0) {
        Some(p) => p,
        None => src.len() as int,
    };
    let e1: int = match next_newline(src, 0) {
        Some(p) => p + 1,
        None => src.len() as int,
    };
    assert(j + 1 <= e0);
    assert(emphasis_face(m) == Some(face));
    let b = src.subrange(0, e0);
    assert forall|x: int| 0 <= x < k implies #[trigger] b[x] == 0x20 by {
        assert(b[x] == src[x]);
        assert(src[x] == sp[x]);
    }
    assert(b[k] == m);
    assert(b[j] == m);
    assert forall|x: int| k + 1 <= x < j implies #[trigger] b[x] == t[x - k - 1] by {
        assert(b[x] == src[x]);
    }
    assert(b[k + 1] == t[0]);
    assert(b[j - 1] == t[t.len() - 1]);
    assert forall|x: int| k + 2 <= x < j implies #[trigger] b[x] != m by {
        assert(b[x] == t[x - k - 1]);
    }
    assert(byte_at(b, j + 1) is None || byte_at(b, j + 1) == Some(0x20u8)) by {
        if j + 1 < b.len() {
            assert(b[j + 1] == src[j + 1]);
            assert(src[j + 1] == q[0]);
        }
    }
    lemma_line_emphasis(b, k, j, m, face, rows);
    lemma_first_line(src, vs, ve, rows);
}

/// The decorations of a source begin with those of its first line, when it is in view.
proof fn lemma_first_line(src: Seq<u8>, vs: usize, ve: usize, rows: u16)
    requires
        src.len() > 0,
        valid_utf8(src),
        0 < ve,
        vs < (match next_newline(src, 0) {
            Some(p) => p + 1,
            None => src.len() as int,
        }),
    ensures
        ({
            let e0: int = match next_newline(src, 0) {
                Some(p) => p,
                None => src.len() as int,
            };
            let here = line_decor(src.subrange(0, e0), 0, 0, rows).0;
            let all = decorations_of(src, vs, ve, rows).0;
            all.len() >= here.len() && forall|x: int| 0 <= x < here.len() ==> #[trigger] all[x] == here[x]
        }),
{
    lemma_next_newline(src, 0);
}

/// A line of leading spaces and then an emphasis begins with the emphasis' three spans.
proof fn lemma_line_emphasis(b: Seq<u8>, k: int, j: int, m: u8, face: &'static str, rows: u16)
    requires
        0 <= k,
        k + 1 < j < b.len(),
        j + 1 <= usize::MAX,
        forall|x: int| 0 <= x < k ==> #[trigger] b[x] == 0x20,
        b[k] == m,
        b[j] == m,
        emphasis_face(m) == Some(face),
        m != 0x20 && m != 0x7C && m != 0x2D,
        b[k + 1] != 0x20 && b[k + 1] != 0x09 && b[k + 1] != m,
        b[j - 1] != 0x20 && b[j - 1] != 0x09,
        forall|x: int| k + 2 <= x < j ==> #[trigger] b[x] != m,
        byte_at(b, j + 1) is None || byte_at(b, j + 1) == Some(0x20u8),
    ensures
        ({
            let spans = line_decor(b, 0, 0, rows).0;
            &&& spans.len() >= 3
            &&& spans[0].start == k && spans[0].end == k + 1 && spans[0].conceal
            &&& spans[1].start == k + 1 && spans[1].end == j && spans[1].face == Some(face) && !spans[1].conceal
            &&& spans[2].start == j && spans[2].end == j + 1 && spans[2].conceal
        }),
{
    lemma_line_is_inline(b, k, m, rows);
    lemma_inline_spaces(b, 0, k, 0, 0, rows);
    lemma_inline_emphasis(b, k, j, m, face, rows);
}

/// The run of spaces from `x` up to a non-space at `k`.
proof fn lemma_run_len_spaces(b: Seq<u8>, x: int, k: int)
    requires
        0 <= x <= k < b.len(),
        forall|y: int| x <= y < k ==> #[trigger] b[y] == 0x20,
        b[k] != 0x20,
    ensures
        run_len(b, x, 0x20) == k - x,
    decreases k - x,
{
    if x < k {
        lemma_run_len_spaces(b, x + 1, k);
    }
}

} // verus!
