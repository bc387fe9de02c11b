//! The normalized language-service model — what the UI reads instead of raw LSP protocol. A
//! [`Diag`] is a byte-range diagnostic; the protocol layer converts LSP `publishDiagnostics` into
//! these via [`lsp_pos_to_byte`].
use vstd::prelude::*;
use vstd::utf8::*;
use vstd::string::StringSliceAdditionalSpecFns;
use crate::persist::encoding::{count_lf, LF};
use crate::text::{
    char_utf16_len, char_utf8_len, chars_of, lemma_encode_concat, lemma_encode_push, lemma_str_bytes,
    utf16_len, utf8_str,
};

verus! {

/// Diagnostic severity, normalized from the LSP 1..=4 scale.
#[derive(Clone, Copy, PartialEq, Eq, Debug)]
pub enum Severity {
    Error,
    Warning,
    Info,
    Hint,
}

/// The severity an LSP `severity` field denotes (absent or unknown means Error).
pub open spec fn severity_of(n: Option<u8>) -> Severity {
    match n {
        Some(2) => Severity::Warning,
        Some(3) => Severity::Info,
        Some(4) => Severity::Hint,
        _ => Severity::Error,
    }
}

impl Severity {
    /// Map the LSP `severity` field (1=Error … 4=Hint; absent defaults to Error, as most servers
    /// intend).
    pub fn from_lsp(n: Option<u8>) -> (s: Severity)
        ensures
            s == severity_of(n),
    {
        match n {
            Some(2) => Severity::Warning,
            Some(3) => Severity::Info,
            Some(4) => Severity::Hint,
            _ => Severity::Error,
        }
    }
}

/// One diagnostic as a byte range in the buffer plus its severity and message.
#[derive(Clone, PartialEq, Eq, Debug)]
pub struct Diag {
    pub start: usize,
    pub end: usize,
    pub severity: Severity,
    pub message: String,
}

/// The number of diagnostics in `d` with severity `sev`.
pub open spec fn count_severity(d: Seq<Diag>, sev: Severity) -> nat
    decreases d.len(),
{
    if d.len() == 0 {
        0
    } else {
        count_severity(d.drop_last(), sev) + if d.last().severity == sev { 1nat } else { 0nat }
    }
}

/// `(errors, warnings)` counts for the status line.
pub fn counts(diags: &[Diag]) -> (r: (usize, usize))
    ensures
        r.0 == count_severity(diags@, Severity::Error),
        r.1 == count_severity(diags@, Severity::Warning),
{
    let mut errors: usize = 0;
    let mut warnings: usize = 0;
    let mut i: usize = 0;
    while i < diags.len()
        invariant
            i <= diags@.len(),
            errors == count_severity(diags@.take(i as int), Severity::Error),
            warnings == count_severity(diags@.take(i as int), Severity::Warning),
            errors <= i,
            warnings <= i,
        decreases diags.len() - i,
    {
        assert(diags@.take(i + 1).drop_last() =~= diags@.take(i as int));
        match diags[i].severity {
            Severity::Error => errors += 1,
            Severity::Warning => warnings += 1,
            _ => {},
        }
        i += 1;
    }
    assert(diags@.take(diags@.len() as int) =~= diags@);
    (errors, warnings)
}

/// The index of the first `\n` at or after `from`.
pub open spec fn next_newline(bytes: Seq<u8>, from: int) -> Option<int>
    decreases bytes.len() - from,
{
    if from < 0 || from >= bytes.len() {
        None
    } else if bytes[from] == LF {
        Some(from)
    } else {
        next_newline(bytes, from + 1)
    }
}

/// The start of the line `lines` lines below the line starting at `idx`, or `None` past EOF.
pub open spec fn line_start_from(bytes: Seq<u8>, idx: int, lines: nat) -> Option<int>
    decreases lines,
{
    if lines == 0 {
        Some(idx)
    } else {
        match next_newline(bytes, idx) {
            Some(p) => line_start_from(bytes, p + 1, (lines - 1) as nat),
            None => None,
        }
    }
}

/// The first character index from `k` on where the column walk stops: a `\n`, or the point where
/// `character` UTF-16 units have been passed, or the end of the text.
pub open spec fn col_stop(chars: Seq<char>, character: int, k: int) -> int
    decreases chars.len() - k,
{
    if k < 0 || k >= chars.len() {
        chars.len() as int
    } else if chars[k] == '\n' || utf16_len(chars.take(k)) >= character {
        k
    } else {
        col_stop(chars, character, k + 1)
    }
}

/// The byte offset an LSP `(line, character)` position denotes: the start of the line (EOF for a
/// missing line), then UTF-16 units across the line's characters, clamped to the line end.
pub open spec fn pos_to_byte(bytes: Seq<u8>, line: u32, character: u32) -> int {
    match line_start_from(bytes, 0, line as nat) {
        None => bytes.len() as int,
        Some(idx) => {
            let rest = bytes.skip(idx);
            if valid_utf8(rest) {
                let cs = decode_utf8(rest);
                idx + encode_utf8(cs.take(col_stop(cs, character as int, 0))).len()
            } else {
                idx
            }
        },
    }
}

/// The index of the last `\n` in `s`.
pub open spec fn last_newline(s: Seq<u8>) -> Option<int>
    decreases s.len(),
{
    if s.len() == 0 {
        None
    } else if s.last() == LF {
        Some(s.len() - 1)
    } else {
        last_newline(s.drop_last())
    }
}

/// The LSP position of byte offset `byte` (clamped to the buffer): the number of `\n`s before it
/// and the UTF-16 units from its line start (0 when that span is not valid UTF-8), each taken
/// modulo 2^32.
pub open spec fn byte_to_pos(bytes: Seq<u8>, byte: usize) -> (u32, u32) {
    let b = if byte <= bytes.len() { byte as int } else { bytes.len() as int };
    let pre = bytes.take(b);
    let start = match last_newline(pre) {
        Some(i) => i + 1,
        None => 0,
    };
    let seg = bytes.subrange(start, b);
    let character = if valid_utf8(seg) { utf16_len(decode_utf8(seg)) } else { 0 };
    (count_lf(pre) as u32, character as u32)
}

proof fn lemma_line_start_range(bytes: Seq<u8>, idx: int, lines: nat)
    requires
        0 <= idx <= bytes.len(),
    ensures
        line_start_from(bytes, idx, lines) matches Some(p) ==> 0 <= p <= bytes.len(),
    decreases lines,
{
    if lines > 0 {
        lemma_next_newline(bytes, idx);
        match next_newline(bytes, idx) {
            Some(p) => lemma_line_start_range(bytes, p + 1, (lines - 1) as nat),
            None => {},
        }
    }
}

proof fn lemma_last_newline_range(s: Seq<u8>)
    ensures
        last_newline(s) matches Some(i) ==> 0 <= i < s.len(),
    decreases s.len(),
{
    if s.len() > 0 {
        lemma_last_newline_range(s.drop_last());
    }
}

pub proof fn lemma_next_newline(bytes: Seq<u8>, from: int)
    ensures
        next_newline(bytes, from) matches Some(p) ==> from <= p < bytes.len() && bytes[p] == LF,
    decreases bytes.len() - from,
{
    if 0 <= from < bytes.len() {
        lemma_next_newline(bytes, from + 1);
    }
}

/// The first `\n` at or after `from`.
pub(crate) fn find_newline(bytes: &[u8], from: usize) -> (r: Option<usize>)
    ensures
        r matches Some(p) ==> next_newline(bytes@, from as int) == Some(p as int),
        r is None ==> next_newline(bytes@, from as int) is None,
        r matches Some(p) ==> from <= p < bytes@.len(),
{
    proof {
        lemma_next_newline(bytes@, from as int);
    }
    let mut i = from;
    while i < bytes.len()
        invariant
            from <= i,
            next_newline(bytes@, i as int) == next_newline(bytes@, from as int),
        decreases bytes.len() - i,
    {
        if bytes[i] == LF {
            return Some(i);
        }
        i += 1;
    }
    None
}

/// UTF-16 units never exceed UTF-8 bytes.
proof fn lemma_units_le_bytes(s: Seq<char>)
    ensures
        utf16_len(s) <= encode_utf8(s).len(),
    decreases s.len(),
{
    if s.len() > 0 {
        lemma_units_le_bytes(s.drop_last());
        lemma_encode_push(s.drop_last(), s.last());
        assert(s.drop_last().push(s.last()) =~= s);
        char_is_scalar(s.last());
    }
}

/// The start of line `line` (0-based), or `None` when the text has fewer lines.
fn line_start(bytes: &[u8], line: u32) -> (r: Option<usize>)
    ensures
        r matches Some(i) ==> line_start_from(bytes@, 0, line as nat) == Some(i as int),
        r is None ==> line_start_from(bytes@, 0, line as nat) is None,
        r matches Some(p) ==> p <= bytes@.len(),
{
    proof {
        lemma_line_start_range(bytes@, 0, line as nat);
    }
    let mut idx: usize = 0;
    let mut cur: u32 = 0;
    while cur < line
        invariant
            cur <= line,
            idx <= bytes@.len(),
            bytes@.len() == bytes.len(),
            line_start_from(bytes@, idx as int, (line - cur) as nat) == line_start_from(bytes@, 0, line as nat),
        decreases line - cur,
    {
        proof {
            lemma_next_newline(bytes@, idx as int);
        }
        match find_newline(bytes, idx) {
            Some(p) => {
                assert(((line - cur) as nat - 1) as nat == (line - (cur + 1)) as nat);
                assert(line_start_from(bytes@, idx as int, (line - cur) as nat) == line_start_from(
                    bytes@,
                    p + 1,
                    ((line - cur) as nat - 1) as nat,
                ));
                idx = p + 1;
                cur += 1;
            },
            None => {
                return None;
            },
        }
    }
    Some(idx)
}

/// The byte offset within `chars`' encoding where the column walk for `character` stops.
fn column_offset(cs: &[char], character: u32) -> (r: usize)
    requires
        encode_utf8(cs@).len() <= usize::MAX,
    ensures
        r == encode_utf8(cs@.take(col_stop(cs@, character as int, 0))).len(),
        r <= encode_utf8(cs@).len(),
{
    let ghost chars = cs@;
    let mut off: usize = 0;
    let mut units: u64 = 0;
    let mut k: usize = 0;
    assert(chars.take(0) =~= Seq::<char>::empty());
    proof {
        lemma_encode_concat(chars.take(0), chars.skip(0));
        assert(chars.take(0) + chars.skip(0) =~= chars);
    }
    while k < cs.len()
        invariant
            k <= chars.len(),
            cs@ == chars,
            encode_utf8(chars).len() <= usize::MAX,
            off == encode_utf8(chars.take(k as int)).len(),
            off <= encode_utf8(chars).len(),
            units == utf16_len(chars.take(k as int)),
            units <= off,
            col_stop(chars, character as int, k as int) == col_stop(chars, character as int, 0),
        decreases cs.len() - k,
    {
        let c = cs[k];
        if c == '\n' || units >= character as u64 {
            return off;
        }
        proof {
            lemma_encode_push(chars.take(k as int), c);
            assert(chars.take(k + 1) =~= chars.take(k as int).push(c));
            assert(chars.take(k + 1).drop_last() =~= chars.take(k as int));
            lemma_encode_concat(chars.take(k + 1), chars.skip(k + 1));
            assert(chars.take(k + 1) + chars.skip(k + 1) =~= chars);
            lemma_units_le_bytes(chars.take(k + 1));
        }
        units = units + char_utf16_len(c);
        off = off + char_utf8_len(c);
        k += 1;
    }
    assert(chars.take(chars.len() as int) =~= chars);
    off
}

/// Convert an LSP `(line, character)` position to a byte offset in `bytes`. LSP positions are
/// UTF-16: `line` is 0-based; `character` counts UTF-16 code units from the line start. Clamps to
/// the line end when `character` runs past it, and to EOF for a missing line.
pub fn lsp_pos_to_byte(bytes: &[u8], line: u32, character: u32) -> (r: usize)
    ensures
        r == pos_to_byte(bytes@, line, character),
{
    proof {
        lemma_line_start_range(bytes@, 0, line as nat);
    }
    let idx = match line_start(bytes, line) {
        Some(i) => i,
        None => {
            return bytes.len();
        },
    };
    let (_, tail) = bytes.split_at(idx);
    assert(line_start_from(bytes@, 0, line as nat) == Some(idx as int));
    assert(tail@ =~= bytes@.skip(idx as int));
    assert(tail@.len() + idx == bytes@.len());
    assert(tail@.len() == tail.len());
    assert(bytes@.len() == bytes.len());
    let rest = match utf8_str(tail) {
        Some(s) => s,
        None => {
            assert(!valid_utf8(bytes@.skip(idx as int)));
            assert(pos_to_byte(bytes@, line, character) == idx as int);
            return idx;
        },
    };
    proof {
        lemma_str_bytes(rest);
    }
    let cs = chars_of(rest);
    assert(cs@ == decode_utf8(bytes@.skip(idx as int)));
    assert(encode_utf8(cs@).len() == tail.len());
    let off = column_offset(cs.as_slice(), character);
    idx + off
}

/// The number of `\n` bytes in `bytes[..b]`.
fn count_newlines(bytes: &[u8], b: usize) -> (r: usize)
    requires
        b <= bytes@.len(),
    ensures
        r == count_lf(bytes@.take(b as int)),
{
    let ghost pre = bytes@.take(b as int);
    let mut lines: usize = 0;
    let mut i: usize = 0;
    assert(pre.subrange(0, b as int) =~= pre);
    while i < b
        invariant
            i <= b <= bytes@.len(),
            pre == bytes@.take(b as int),
            lines + count_lf(pre.subrange(i as int, b as int)) == count_lf(pre),
            lines <= i,
        decreases b - i,
    {
        assert(pre.subrange(i as int, b as int).drop_first() =~= pre.subrange(i + 1, b as int));
        if bytes[i] == LF {
            lines += 1;
        }
        i += 1;
    }
    assert(pre.subrange(b as int, b as int).len() == 0);
    lines
}

/// The UTF-16 length of `seg` read as UTF-8, or 0 when it is not valid UTF-8.
fn utf16_count(seg: &[u8]) -> (r: u64)
    ensures
        r == (if valid_utf8(seg@) { utf16_len(decode_utf8(seg@)) } else { 0 }),
{
    match utf8_str(seg) {
        None => 0,
        Some(s) => {
            proof {
                lemma_str_bytes(s);
            }
            let cs = chars_of(s);
            let mut units: u64 = 0;
            let mut k: usize = 0;
            assert(cs@.take(0) =~= Seq::<char>::empty());
            while k < cs.len()
                invariant
                    k <= cs@.len(),
                    encode_utf8(cs@) == seg@,
                    seg@.len() == seg.len(),
                    units == utf16_len(cs@.take(k as int)),
                    units <= encode_utf8(cs@.take(k as int)).len(),
                    encode_utf8(cs@.take(k as int)).len() <= seg@.len(),
                decreases cs.len() - k,
            {
                let c = cs[k];
                proof {
                    lemma_encode_push(cs@.take(k as int), c);
                    assert(cs@.take(k + 1) =~= cs@.take(k as int).push(c));
                    assert(cs@.take(k + 1).drop_last() =~= cs@.take(k as int));
                    lemma_encode_concat(cs@.take(k + 1), cs@.skip(k + 1));
                    assert(cs@.take(k + 1) + cs@.skip(k + 1) =~= cs@);
                    lemma_units_le_bytes(cs@.take(k + 1));
                }
                units = units + char_utf16_len(c);
                k += 1;
            }
            assert(cs@.take(cs@.len() as int) =~= cs@);
            units
        },
    }
}

/// Convert a byte offset to an LSP `(line, character)` position — the inverse of
/// [`lsp_pos_to_byte`]. `line` is 0-based; `character` counts UTF-16 code units from the line
/// start.
pub fn byte_to_lsp_pos(bytes: &[u8], byte: usize) -> (r: (u32, u32))
    ensures
        r == byte_to_pos(bytes@, byte),
{
    let b = if byte <= bytes.len() { byte } else { bytes.len() };
    proof {
        lemma_last_newline_range(bytes@.take(b as int));
    }
    let lines = count_newlines(bytes, b);
    let start = match find_last_newline(bytes, b) {
        Some(p) => p + 1,
        None => 0,
    };
    let seg = &bytes[start..b];
    assert(seg@ =~= bytes@.subrange(start as int, b as int));
    let units = utf16_count(seg);
    (lines as u32, units as u32)
}

/// The last `\n` in `bytes[..b]`.
fn find_last_newline(bytes: &[u8], b: usize) -> (r: Option<usize>)
    requires
        b <= bytes@.len(),
    ensures
        r matches Some(p) ==> last_newline(bytes@.take(b as int)) == Some(p as int),
        r is None ==> last_newline(bytes@.take(b as int)) is None,
        r matches Some(p) ==> p < b,
{
    let ghost pre = bytes@.take(b as int);
    let mut j = b;
    assert(pre.take(b as int) =~= pre);
    while j > 0
        invariant
            j <= b <= bytes@.len(),
            pre == bytes@.take(b as int),
            last_newline(pre) == last_newline(pre.take(j as int)),
        decreases j,
    {
        assert(pre.take(j as int).drop_last() =~= pre.take(j - 1));
        if bytes[j - 1] == LF {
            return Some(j - 1);
        }
        j -= 1;
    }
    None
}

/// The number of `\n` characters in `cs`.
pub open spec fn newlines(cs: Seq<char>) -> nat
    decreases cs.len(),
{
    if cs.len() == 0 {
        0
    } else {
        (if cs[0] == '\n' { 1nat } else { 0nat }) + newlines(cs.drop_first())
    }
}

/// The prefix of `cs` through its last `\n` (empty when it has none).
pub open spec fn through_last_newline(cs: Seq<char>) -> Seq<char>
    decreases cs.len(),
{
    if cs.len() == 0 {
        seq![]
    } else if newlines(cs.drop_first()) > 0 {
        seq![cs[0]] + through_last_newline(cs.drop_first())
    } else if cs[0] == '\n' {
        seq![cs[0]]
    } else {
        seq![]
    }
}

/// A character's encoding holds a `\n` byte exactly when it is `\n`, and is then that byte.
pub(crate) proof fn lemma_scalar_lf(c: char)
    ensures
        c == '\n' ==> encode_scalar(c as u32) == seq![LF],
        c != '\n' ==> forall|k: int| 0 <= k < encode_scalar(c as u32).len() ==> #[trigger] encode_scalar(c as u32)[k] != LF,
        encode_scalar(c as u32).len() >= 1,
{
    char_is_scalar(c);
    let v = c as u32;
    if has_width_1_encoding(v) {
        assert((v & 0x7f) as u8 == v) by (bit_vector)
            requires v <= 0x7f;
    } else if has_width_2_encoding(v) {
        assert((0xC0 | ((v >> 6) & 0x1F) as u8) >= 0x80 && (0x80 | (v & 0x3F) as u8) >= 0x80) by (bit_vector);
    } else if has_width_3_encoding(v) {
        assert((0xE0 | ((v >> 12) & 0x0F) as u8) >= 0x80 && (0x80 | ((v >> 6) & 0x3F) as u8) >= 0x80 && (0x80
            | (v & 0x3F) as u8) >= 0x80) by (bit_vector);
    } else {
        assert((0xF0 | ((v >> 18) & 0x7) as u8) >= 0x80 && (0x80 | ((v >> 12) & 0x3F) as u8) >= 0x80 && (0x80
            | ((v >> 6) & 0x3F) as u8) >= 0x80 && (0x80 | (v & 0x3F) as u8) >= 0x80) by (bit_vector);
    }
}

pub(crate) proof fn lemma_encode_first(cs: Seq<char>)
    requires
        cs.len() > 0,
    ensures
        encode_utf8(cs) == encode_scalar(cs[0] as u32) + encode_utf8(cs.drop_first()),
{
}

pub(crate) proof fn lemma_count_lf_concat(x: Seq<u8>, y: Seq<u8>)
    ensures
        count_lf(x + y) == count_lf(x) + count_lf(y),
    decreases x.len(),
{
    if x.len() > 0 {
        assert((x + y).drop_first() =~= x.drop_first() + y);
        lemma_count_lf_concat(x.drop_first(), y);
    } else {
        assert(x + y =~= y);
    }
}

proof fn lemma_count_lf_scalar(c: char)
    ensures
        count_lf(encode_scalar(c as u32)) == (if c == '\n' { 1nat } else { 0nat }),
{
    lemma_scalar_lf(c);
    let e = encode_scalar(c as u32);
    if c == '\n' {
        assert(e == seq![LF]);
        assert(e[0] == LF);
        assert(e.drop_first() =~= Seq::<u8>::empty());
        assert(count_lf(e.drop_first()) == 0);
    } else {
        lemma_count_lf_none(e);
    }
}

proof fn lemma_count_lf_none(e: Seq<u8>)
    requires
        forall|k: int| 0 <= k < e.len() ==> #[trigger] e[k] != LF,
    ensures
        count_lf(e) == 0,
    decreases e.len(),
{
    if e.len() > 0 {
        assert(e[0] != LF);
        assert forall|k: int| 0 <= k < e.drop_first().len() implies #[trigger] e.drop_first()[k] != LF by {
            assert(e.drop_first()[k] == e[k + 1]);
        }
        lemma_count_lf_none(e.drop_first());
    }
}

/// The `\n` bytes of an encoding are its `\n` characters.
proof fn lemma_count_lf_encode(cs: Seq<char>)
    ensures
        count_lf(encode_utf8(cs)) == newlines(cs),
    decreases cs.len(),
{
    if cs.len() > 0 {
        lemma_encode_first(cs);
        lemma_count_lf_concat(encode_scalar(cs[0] as u32), encode_utf8(cs.drop_first()));
        lemma_count_lf_scalar(cs[0]);
        lemma_count_lf_encode(cs.drop_first());
    }
}

proof fn lemma_last_newline_concat(x: Seq<u8>, y: Seq<u8>)
    ensures
        last_newline(x + y) == match last_newline(y) {
            Some(i) => Some(x.len() + i),
            None => last_newline(x),
        },
    decreases y.len(),
{
    if y.len() == 0 {
        assert(x + y =~= x);
    } else {
        assert((x + y).drop_last() =~= x + y.drop_last());
        lemma_last_newline_concat(x, y.drop_last());
    }
}

proof fn lemma_last_newline_none(e: Seq<u8>)
    requires
        forall|k: int| 0 <= k < e.len() ==> #[trigger] e[k] != LF,
    ensures
        last_newline(e) is None,
    decreases e.len(),
{
    if e.len() > 0 {
        assert(e.last() != LF);
        lemma_last_newline_none(e.drop_last());
    }
}

/// The last `\n` byte of an encoding closes the prefix through the last `\n` character.
proof fn lemma_last_newline_encode(cs: Seq<char>)
    ensures
        newlines(cs) > 0 ==> last_newline(encode_utf8(cs)) == Some(encode_utf8(through_last_newline(cs)).len() - 1),
        newlines(cs) == 0 ==> last_newline(encode_utf8(cs)) is None,
        newlines(cs) == 0 ==> through_last_newline(cs) == Seq::<char>::empty(),
    decreases cs.len(),
{
    if cs.len() > 0 {
        let c = cs[0];
        let r = cs.drop_first();
        lemma_encode_first(cs);
        lemma_last_newline_encode(r);
        lemma_last_newline_concat(encode_scalar(c as u32), encode_utf8(r));
        lemma_scalar_lf(c);
        if c == '\n' {
            assert(last_newline(seq![LF]) == Some(0int)) by {
                assert(seq![LF].last() == LF);
            }
        } else {
            lemma_last_newline_none(encode_scalar(c as u32));
        }
        if newlines(r) > 0 {
            lemma_encode_first(seq![c] + through_last_newline(r));
            assert((seq![c] + through_last_newline(r)).drop_first() =~= through_last_newline(r));
        } else if c == '\n' {
            lemma_encode_first(seq![c]);
            assert(seq![c].drop_first() =~= Seq::<char>::empty());
        }
    }
}

/// A text splits into its prefix through the last `\n` and a rest without `\n`.
proof fn lemma_through_last_split(cs: Seq<char>)
    ensures
        through_last_newline(cs).len() <= cs.len(),
        cs == through_last_newline(cs) + cs.skip(through_last_newline(cs).len() as int),
        newlines(cs.skip(through_last_newline(cs).len() as int)) == 0,
        newlines(cs) == newlines(through_last_newline(cs)),
    decreases cs.len(),
{
    if cs.len() > 0 {
        let r = cs.drop_first();
        lemma_through_last_split(r);
        let t = through_last_newline(cs);
        if newlines(r) > 0 {
            let tr = through_last_newline(r);
            assert(t == seq![cs[0]] + tr);
            assert(t.len() == 1 + tr.len());
            assert(cs.skip(t.len() as int) =~= r.skip(tr.len() as int));
            assert(r == tr + r.skip(tr.len() as int));
            assert forall|k: int| 0 <= k < cs.len() implies #[trigger] cs[k] == (t + cs.skip(t.len() as int))[k] by {
                if k > 0 {
                    assert(cs[k] == r[k - 1]);
                    assert(r[k - 1] == (tr + r.skip(tr.len() as int))[k - 1]);
                }
            }
            assert(cs =~= t + cs.skip(t.len() as int));
            assert(t.drop_first() =~= through_last_newline(r));
        } else if cs[0] == '\n' {
            assert(cs.skip(1) =~= r);
            assert(cs =~= t + cs.skip(t.len() as int));
            assert(t.drop_first() =~= Seq::<char>::empty());
        } else {
            assert(cs.skip(0) =~= cs);
            assert(cs =~= t + cs.skip(0));
        }
    } else {
        assert(cs.skip(0) =~= cs);
    }
}

/// No `\n` byte between `from` and `to` leaves the next `\n` unchanged.
pub(crate) proof fn lemma_next_newline_skip(bytes: Seq<u8>, from: int, to: int)
    requires
        0 <= from <= to <= bytes.len(),
        forall|k: int| from <= k < to ==> #[trigger] bytes[k] != LF,
    ensures
        next_newline(bytes, from) == next_newline(bytes, to),
    decreases to - from,
{
    if from < to {
        lemma_next_newline_skip(bytes, from + 1, to);
    }
}

/// Walking down `newlines(p)` lines from the start of `p` in the encoding of `q + p + t` lands
/// just after the last `\n` of `p`.
proof fn lemma_line_start_encode(q: Seq<char>, p: Seq<char>, t: Seq<char>)
    ensures
        line_start_from(encode_utf8(q + p + t), encode_utf8(q).len() as int, newlines(p)) == Some(
            encode_utf8(q + through_last_newline(p)).len() as int,
        ),
    decreases p.len(),
{
    let bytes = encode_utf8(q + p + t);
    if p.len() == 0 {
        assert(q + through_last_newline(p) =~= q);
    } else {
        let c = p[0];
        let r = p.drop_first();
        let q2 = q.push(c);
        assert(q + p + t =~= q2 + r + t);
        lemma_line_start_encode(q2, r, t);
        lemma_encode_push(q, c);
        lemma_encode_concat(q, seq![c] + r + t);
        assert(q + p + t =~= q + (seq![c] + r + t));
        lemma_encode_first(seq![c] + r + t);
        assert((seq![c] + r + t).drop_first() =~= r + t);
        assert((seq![c] + r + t)[0] == c);
        let lo = encode_utf8(q).len() as int;
        let hi = encode_utf8(q2).len() as int;
        lemma_scalar_lf(c);
        assert forall|k: int| lo <= k < hi implies #[trigger] bytes[k] == encode_scalar(c as u32)[k - lo] by {
        }
        if c == '\n' {
            assert(bytes[lo] == LF);
            assert(next_newline(bytes, lo) == Some(lo));
            assert(hi == lo + 1);
            if newlines(r) > 0 {
                assert(through_last_newline(p) == seq![c] + through_last_newline(r));
            } else {
                lemma_last_newline_encode(r);
                assert(through_last_newline(p) == seq![c]);
                assert(q2 + through_last_newline(r) =~= q + seq![c]);
            }
            assert(q + (seq![c] + through_last_newline(r)) =~= q2 + through_last_newline(r));
        } else {
            lemma_next_newline_skip(bytes, lo, hi);
            if newlines(r) > 0 {
                assert(through_last_newline(p) == seq![c] + through_last_newline(r));
                assert(q + (seq![c] + through_last_newline(r)) =~= q2 + through_last_newline(r));
            } else {
                assert(newlines(p) == 0);
                lemma_last_newline_encode(p);
                assert(q + through_last_newline(p) =~= q);
            }
        }
    }
}

/// UTF-16 units grow by at least one with each character.
proof fn lemma_utf16_take(s: Seq<char>, k: int)
    requires
        0 <= k <= s.len(),
    ensures
        utf16_len(s.take(k)) + (s.len() - k) <= utf16_len(s),
    decreases s.len() - k,
{
    if k < s.len() {
        lemma_utf16_take(s, k + 1);
        assert(s.take(k + 1).drop_last() =~= s.take(k));
    } else {
        assert(s.take(k) =~= s);
    }
}

/// The column walk over `s + t` for `utf16_len(s)` units stops right after `s` when `s` holds
/// no `\n`.
proof fn lemma_col_stop_line(s: Seq<char>, t: Seq<char>, k: int)
    requires
        0 <= k <= s.len(),
        newlines(s) == 0,
    ensures
        col_stop(s + t, utf16_len(s) as int, k) == s.len(),
    decreases s.len() - k,
{
    let x = s + t;
    if k < s.len() {
        lemma_no_newline_at(s, k);
        assert(x[k] == s[k]);
        assert(x.take(k) =~= s.take(k));
        lemma_utf16_take(s, k);
        lemma_col_stop_line(s, t, k + 1);
    } else {
        assert(x.take(k) =~= s);
    }
}

proof fn lemma_no_newline_at(s: Seq<char>, k: int)
    requires
        0 <= k < s.len(),
        newlines(s) == 0,
    ensures
        s[k] != '\n',
    decreases k,
{
    if k > 0 {
        lemma_no_newline_at(s.drop_first(), k - 1);
    }
}

/// Law: at a character boundary of valid UTF-8 text, turning a byte offset into an LSP position
/// and back gives the offset again, as long as the line number and the column fit in a `u32`.
pub proof fn law_position_round_trip(bytes: Seq<u8>, b: usize)
    requires
        b <= bytes.len(),
        valid_utf8(bytes.take(b as int)),
        valid_utf8(bytes.skip(b as int)),
        count_lf(bytes.take(b as int)) <= u32::MAX,
        utf16_len(decode_utf8(bytes.take(b as int))) <= u32::MAX,
    ensures
        pos_to_byte(bytes, byte_to_pos(bytes, b).0, byte_to_pos(bytes, b).1) == b,
{
    let pre = bytes.take(b as int);
    let p = decode_utf8(pre);
    let t = decode_utf8(bytes.skip(b as int));
    decode_utf8_encode_utf8(pre);
    decode_utf8_encode_utf8(bytes.skip(b as int));
    lemma_encode_concat(p, t);
    assert(bytes =~= pre + bytes.skip(b as int));
    assert(bytes == encode_utf8(p + t));
    let tl = through_last_newline(p);
    lemma_through_last_split(p);
    let s = p.skip(tl.len() as int);
    lemma_encode_concat(tl, s);
    lemma_count_lf_encode(p);
    lemma_last_newline_encode(p);
    let start = encode_utf8(tl).len() as int;
    // byte_to_pos: the line and the column.
    assert(byte_to_pos(bytes, b).0 == count_lf(pre) as u32);
    let seg = bytes.subrange(start, b as int);
    assert(seg =~= encode_utf8(s));
    encode_utf8_valid_utf8(s);
    encode_utf8_decode_utf8(s);
    lemma_utf16_take(p, tl.len() as int);
    assert(p.take(tl.len() as int) =~= tl);
    assert(utf16_len(s) <= utf16_len(p)) by {
        lemma_utf16_split(tl, s);
    }
    assert(byte_to_pos(bytes, b).1 == utf16_len(s) as u32);
    // pos_to_byte: the line start, then the column.
    lemma_line_start_encode(Seq::<char>::empty(), p, t);
    assert(Seq::<char>::empty() + p + t =~= p + t);
    assert(Seq::<char>::empty() + tl =~= tl);
    assert(encode_utf8(Seq::<char>::empty()).len() == 0);
    assert(line_start_from(bytes, 0, newlines(p)) == Some(start));
    let rest = bytes.skip(start);
    lemma_encode_concat(tl, s + t);
    assert(p + t =~= tl + (s + t));
    assert(rest =~= encode_utf8(s + t));
    encode_utf8_valid_utf8(s + t);
    encode_utf8_decode_utf8(s + t);
    lemma_col_stop_line(s, t, 0);
    assert((s + t).take(s.len() as int) =~= s);
}

/// UTF-16 units add up over a concatenation.
proof fn lemma_utf16_split(a: Seq<char>, b: Seq<char>)
    ensures
        utf16_len(a + b) == utf16_len(a) + utf16_len(b),
    decreases b.len(),
{
    if b.len() == 0 {
        assert(a + b =~= a);
    } else {
        assert((a + b).drop_last() =~= a + b.drop_last());
        lemma_utf16_split(a, b.drop_last());
    }
}


/// The end of the line starting at `ls`: its `\n`, or the end of the text.
pub open spec fn line_end(bytes: Seq<u8>, ls: int) -> int {
    match next_newline(bytes, ls) {
        Some(p) => p,
        None => bytes.len() as int,
    }
}

/// The `\n`s from `from` on: none when no `\n` follows, else the one found plus those after it.
pub(crate) proof fn lemma_next_newline_count(bytes: Seq<u8>, from: int)
    requires
        0 <= from <= bytes.len(),
    ensures
        next_newline(bytes, from) is None ==> count_lf(bytes.skip(from)) == 0,
        next_newline(bytes, from) matches Some(p) ==> count_lf(bytes.skip(from)) == 1 + count_lf(
            bytes.skip(p + 1),
        ),
    decreases bytes.len() - from,
{
    let rest = bytes.skip(from);
    if from < bytes.len() {
        assert(rest[0] == bytes[from]);
        assert(rest.drop_first() =~= bytes.skip(from + 1));
        lemma_next_newline_count(bytes, from + 1);
    } else {
        assert(rest.len() == 0);
    }
}

/// A line `n` lines down from `idx` exists exactly when that many `\n`s follow `idx`.
proof fn lemma_line_start_exists(bytes: Seq<u8>, idx: int, n: nat)
    requires
        0 <= idx <= bytes.len(),
    ensures
        line_start_from(bytes, idx, n) is Some <==> n <= count_lf(bytes.skip(idx)),
    decreases n,
{
    if n > 0 {
        lemma_next_newline_count(bytes, idx);
        lemma_next_newline(bytes, idx);
        match next_newline(bytes, idx) {
            Some(p) => lemma_line_start_exists(bytes, p + 1, (n - 1) as nat),
            None => {},
        }
    }
}

/// The column walk from `k` stops at or after `k`, within the text, before any `\n`.
proof fn lemma_col_stop_range(cs: Seq<char>, c: int, k: int)
    requires
        0 <= k <= cs.len(),
    ensures
        k <= col_stop(cs, c, k) <= cs.len(),
        forall|j: int| k <= j < col_stop(cs, c, k) ==> #[trigger] cs[j] != '\n',
    decreases cs.len() - k,
{
    if k < cs.len() && !(cs[k] == '\n' || utf16_len(cs.take(k)) >= c) {
        lemma_col_stop_range(cs, c, k + 1);
    }
}

/// Characters other than `\n` encode to bytes other than `\n`.
proof fn lemma_encode_no_lf(s: Seq<char>)
    requires
        forall|j: int| 0 <= j < s.len() ==> #[trigger] s[j] != '\n',
    ensures
        forall|k: int| 0 <= k < encode_utf8(s).len() ==> #[trigger] encode_utf8(s)[k] != LF,
    decreases s.len(),
{
    if s.len() > 0 {
        let r = s.drop_first();
        assert forall|j: int| 0 <= j < r.len() implies #[trigger] r[j] != '\n' by {
            assert(r[j] == s[j + 1]);
        }
        lemma_encode_no_lf(r);
        lemma_encode_first(s);
        lemma_scalar_lf(s[0]);
        let e = encode_scalar(s[0] as u32);
        assert forall|k: int| 0 <= k < encode_utf8(s).len() implies #[trigger] encode_utf8(s)[k] != LF by {
            if k < e.len() {
                assert(encode_utf8(s)[k] == e[k]);
            } else {
                assert(encode_utf8(s)[k] == encode_utf8(r)[k - e.len()]);
            }
        }
    }
}

/// Cutting an encoding at the end of its first `n` characters gives their encoding and the rest's.
proof fn lemma_encode_cut(cs: Seq<char>, n: int)
    requires
        0 <= n <= cs.len(),
    ensures
        encode_utf8(cs).len() == encode_utf8(cs.take(n)).len() + encode_utf8(cs.skip(n)).len(),
        encode_utf8(cs).take(encode_utf8(cs.take(n)).len() as int) == encode_utf8(cs.take(n)),
        encode_utf8(cs).skip(encode_utf8(cs.take(n)).len() as int) == encode_utf8(cs.skip(n)),
{
    assert(cs =~= cs.take(n) + cs.skip(n));
    lemma_encode_concat(cs.take(n), cs.skip(n));
    assert(encode_utf8(cs).take(encode_utf8(cs.take(n)).len() as int) =~= encode_utf8(cs.take(n)));
    assert(encode_utf8(cs).skip(encode_utf8(cs.take(n)).len() as int) =~= encode_utf8(cs.skip(n)));
}

/// In an encoding, the next `\n` after a character boundary is the encoding of a `\n` character.
proof fn lemma_next_newline_boundary(cs: Seq<char>, j: int)
    requires
        0 <= j <= cs.len(),
    ensures
        next_newline(encode_utf8(cs), encode_utf8(cs.take(j)).len() as int) matches Some(p) ==> exists|
            j2: int,
        |
            j <= j2 < cs.len() && cs[j2] == '\n' && p == #[trigger] encode_utf8(cs.take(j2)).len(),
    decreases cs.len() - j,
{
    let bytes = encode_utf8(cs);
    let lo = encode_utf8(cs.take(j)).len() as int;
    if j == cs.len() {
        assert(cs.take(j) =~= cs);
    } else {
        let c = cs[j];
        assert(cs.take(j + 1) =~= cs.take(j).push(c));
        lemma_encode_push(cs.take(j), c);
        lemma_encode_cut(cs, j);
        lemma_encode_first(cs.skip(j));
        assert(cs.skip(j)[0] == c);
        let e = encode_scalar(c as u32);
        let hi = encode_utf8(cs.take(j + 1)).len() as int;
        assert(hi == lo + e.len());
        assert forall|k: int| lo <= k < hi implies #[trigger] bytes[k] == e[k - lo] by {
            assert(bytes[k] == bytes.skip(lo)[k - lo]);
            assert(bytes.skip(lo) == encode_utf8(cs.skip(j)));
        }
        lemma_scalar_lf(c);
        if c == '\n' {
            assert(bytes[lo] == LF);
            assert(next_newline(bytes, lo) == Some(lo));
        } else {
            lemma_next_newline_skip(bytes, lo, hi);
            lemma_next_newline_boundary(cs, j + 1);
        }
    }
}

/// In an encoding, every line start reached from a character boundary is a character boundary.
proof fn lemma_line_start_boundary(cs: Seq<char>, j: int, n: nat)
    requires
        0 <= j <= cs.len(),
    ensures
        line_start_from(encode_utf8(cs), encode_utf8(cs.take(j)).len() as int, n) matches Some(q)
            ==> exists|j2: int| 0 <= j2 <= cs.len() && q == #[trigger] encode_utf8(cs.take(j2)).len(),
    decreases n,
{
    let bytes = encode_utf8(cs);
    let lo = encode_utf8(cs.take(j)).len() as int;
    if n == 0 {
        assert(line_start_from(bytes, lo, n) == Some(lo));
    } else {
        lemma_next_newline_boundary(cs, j);
        match next_newline(bytes, lo) {
            Some(p) => {
                let j2 = choose|j2: int|
                    j <= j2 < cs.len() && cs[j2] == '\n' && p == #[trigger] encode_utf8(cs.take(j2)).len();
                assert(cs.take(j2 + 1) =~= cs.take(j2).push('\n'));
                lemma_encode_push(cs.take(j2), '\n');
                lemma_scalar_lf('\n');
                assert(encode_utf8(cs.take(j2 + 1)).len() == p + 1);
                lemma_line_start_boundary(cs, j2 + 1, (n - 1) as nat);
            },
            None => {},
        }
    }
}

/// In valid UTF-8, every line start is a character boundary.
proof fn lemma_line_start_valid(bytes: Seq<u8>, n: nat)
    requires
        valid_utf8(bytes),
    ensures
        line_start_from(bytes, 0, n) matches Some(idx) ==> valid_utf8(bytes.take(idx)) && valid_utf8(
            bytes.skip(idx),
        ),
{
    let all = decode_utf8(bytes);
    decode_utf8_encode_utf8(bytes);
    assert(all.take(0) =~= Seq::<char>::empty());
    lemma_line_start_boundary(all, 0, n);
    if line_start_from(bytes, 0, n) is Some {
        let j = choose|j: int| 0 <= j <= all.len() && line_start_from(bytes, 0, n) == Some(
            #[trigger] encode_utf8(all.take(j)).len() as int,
        );
        lemma_encode_cut(all, j);
        encode_utf8_valid_utf8(all.take(j));
        encode_utf8_valid_utf8(all.skip(j));
    }
}

/// Between two character boundaries: a boundary `a`, then the first `k` characters after it.
proof fn lemma_valid_cut_extend(bytes: Seq<u8>, a: int, k: int)
    requires
        0 <= a <= bytes.len(),
        valid_utf8(bytes.take(a)),
        valid_utf8(bytes.skip(a)),
        0 <= k <= decode_utf8(bytes.skip(a)).len(),
    ensures
        ({
            let b = a + encode_utf8(decode_utf8(bytes.skip(a)).take(k)).len();
            valid_utf8(bytes.take(b)) && valid_utf8(bytes.skip(b))
        }),
{
    let x = decode_utf8(bytes.take(a));
    let y = decode_utf8(bytes.skip(a));
    decode_utf8_encode_utf8(bytes.take(a));
    decode_utf8_encode_utf8(bytes.skip(a));
    lemma_encode_cut(y, k);
    let m = encode_utf8(y.take(k)).len() as int;
    assert(bytes =~= bytes.take(a) + bytes.skip(a));
    assert(bytes.take(a + m) =~= encode_utf8(x) + encode_utf8(y.take(k)));
    lemma_encode_concat(x, y.take(k));
    assert(bytes.skip(a + m) =~= encode_utf8(y.skip(k)));
    encode_utf8_valid_utf8(x + y.take(k));
    encode_utf8_valid_utf8(y.skip(k));
}

/// Law: an LSP position lands inside the text. A line past the last `\n` gives the end of the
/// text; any other line gives an offset between the line's start and its `\n` (or the end of the
/// text); and in valid UTF-8 the offset falls on a character boundary.
pub proof fn law_position_within_line(bytes: Seq<u8>, line: u32, character: u32)
    ensures
        0 <= pos_to_byte(bytes, line, character) <= bytes.len(),
        line > count_lf(bytes) ==> pos_to_byte(bytes, line, character) == bytes.len(),
        line <= count_lf(bytes) ==> (line_start_from(bytes, 0, line as nat) matches Some(ls) && ls
            <= pos_to_byte(bytes, line, character) <= line_end(bytes, ls)),
        valid_utf8(bytes) ==> valid_utf8(bytes.take(pos_to_byte(bytes, line, character)))
            && valid_utf8(bytes.skip(pos_to_byte(bytes, line, character))),
{
    assert(bytes.skip(0) =~= bytes);
    lemma_line_start_exists(bytes, 0, line as nat);
    lemma_line_start_range(bytes, 0, line as nat);
    if valid_utf8(bytes) {
        lemma_line_start_valid(bytes, line as nat);
    }
    match line_start_from(bytes, 0, line as nat) {
        None => {
            assert(bytes.take(bytes.len() as int) =~= bytes);
            assert(bytes.skip(bytes.len() as int) =~= encode_utf8(Seq::<char>::empty()));
            encode_utf8_valid_utf8(Seq::<char>::empty());
        },
        Some(idx) => {
            lemma_next_newline(bytes, idx);
            let rest = bytes.skip(idx);
            if valid_utf8(rest) {
                let cs = decode_utf8(rest);
                let k = col_stop(cs, character as int, 0);
                lemma_col_stop_range(cs, character as int, 0);
                decode_utf8_encode_utf8(rest);
                lemma_encode_cut(cs, k);
                let m = encode_utf8(cs.take(k)).len() as int;
                assert forall|j: int| 0 <= j < cs.take(k).len() implies #[trigger] cs.take(k)[j] != '\n' by {
                    assert(cs.take(k)[j] == cs[j]);
                }
                lemma_encode_no_lf(cs.take(k));
                assert forall|x: int| idx <= x < idx + m implies #[trigger] bytes[x] != LF by {
                    assert(bytes[x] == rest[x - idx]);
                    assert(rest[x - idx] == encode_utf8(cs.take(k))[x - idx]);
                }
                lemma_next_newline_skip(bytes, idx, idx + m);
                lemma_next_newline(bytes, idx + m);
                if valid_utf8(bytes) {
                    lemma_valid_cut_extend(bytes, idx, k);
                }
            }
        },
    }
}

} // verus!
