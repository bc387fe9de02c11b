//! Line-ending and byte-order-mark preservation.
//!
//! The editor core works on LF-only bytes without a BOM. [`FileFormat::detect`] reads the original
//! style of a file once at load, [`FileFormat::to_buffer`] strips that style to get clean editor
//! bytes, and [`FileFormat::to_disk`] restores it on save. Only the BOM and `\n` / `\r\n` are touched,
//! so bytes that are not valid UTF-8 survive unchanged.
use vstd::prelude::*;

verus! {

/// The line-ending style of a file.
#[derive(Clone, Copy, PartialEq, Eq, Debug, Default)]
pub enum Eol {
    /// Unix `\n`.
    #[default]
    Lf,
    /// DOS/Windows `\r\n`.
    Crlf,
}

/// The original on-disk shape to restore on save.
#[derive(Clone, Copy, PartialEq, Eq, Debug, Default)]
pub struct FileFormat {
    pub eol: Eol,
    /// A leading UTF-8 BOM (`EF BB BF`) was present and must be re-emitted.
    pub bom: bool,
}

pub const CR: u8 = 0x0D;

pub const LF: u8 = 0x0A;

/// The UTF-8 byte-order mark.
pub open spec fn bom_bytes() -> Seq<u8> {
    seq![0xEFu8, 0xBBu8, 0xBFu8]
}

/// `raw` begins with the UTF-8 byte-order mark.
pub open spec fn starts_with_bom(raw: Seq<u8>) -> bool {
    raw.len() >= 3 && raw.take(3) == bom_bytes()
}

/// `raw` without a leading BOM when `strip` holds and one is present.
pub open spec fn body_of(raw: Seq<u8>, strip: bool) -> Seq<u8> {
    if strip && starts_with_bom(raw) {
        raw.skip(3)
    } else {
        raw
    }
}

/// The number of `\r\n` pairs (two-byte windows) in `s`.
pub open spec fn count_crlf(s: Seq<u8>) -> nat
    decreases s.len(),
{
    if s.len() < 2 {
        0
    } else {
        (if s[0] == CR && s[1] == LF { 1nat } else { 0nat }) + count_crlf(s.drop_first())
    }
}

/// The number of `\n` bytes in `s`.
pub open spec fn count_lf(s: Seq<u8>) -> nat
    decreases s.len(),
{
    if s.len() == 0 {
        0
    } else {
        (if s[0] == LF { 1nat } else { 0nat }) + count_lf(s.drop_first())
    }
}

/// The line-ending style decided by majority: CRLF only when `\r\n` pairs outnumber bare `\n`s.
pub open spec fn majority_eol(body: Seq<u8>) -> Eol {
    let crlf = count_crlf(body);
    let bare = if count_lf(body) >= crlf { count_lf(body) - crlf } else { 0 };
    if crlf > bare { Eol::Crlf } else { Eol::Lf }
}

/// `s` with every `\r` that directly precedes a `\n` removed (lone `\r` bytes stay).
pub open spec fn fold_crlf(s: Seq<u8>) -> Seq<u8>
    decreases s.len(),
{
    if s.len() == 0 {
        seq![]
    } else if s[0] == CR && s.len() >= 2 && s[1] == LF {
        fold_crlf(s.drop_first())
    } else {
        seq![s[0]] + fold_crlf(s.drop_first())
    }
}

/// `s` with every `\n` written as `\r\n`.
pub open spec fn expand_lf(s: Seq<u8>) -> Seq<u8>
    decreases s.len(),
{
    if s.len() == 0 {
        seq![]
    } else {
        (if s[0] == LF { seq![CR, LF] } else { seq![s[0]] }) + expand_lf(s.drop_first())
    }
}

/// Every `\n` in `s` is directly preceded by a `\r`: a file consistently in CRLF style.
pub open spec fn all_lf_after_cr(s: Seq<u8>) -> bool {
    forall|i: int| 0 <= i < s.len() && #[trigger] s[i] == LF ==> i > 0 && s[i - 1] == CR
}

impl FileFormat {
    /// The format [`FileFormat::detect`] reads from `raw`.
    pub open spec fn detected(raw: Seq<u8>) -> FileFormat {
        FileFormat { eol: majority_eol(body_of(raw, true)), bom: starts_with_bom(raw) }
    }

    /// The editor bytes [`FileFormat::to_buffer`] makes of `raw`.
    pub open spec fn buffer_of(self, raw: Seq<u8>) -> Seq<u8> {
        let body = body_of(raw, self.bom);
        match self.eol {
            Eol::Crlf => fold_crlf(body),
            Eol::Lf => body,
        }
    }

    /// The disk bytes [`FileFormat::to_disk`] makes of `buffer`.
    pub open spec fn disk_of(self, buffer: Seq<u8>) -> Seq<u8> {
        let prefix = if self.bom { bom_bytes() } else { seq![] };
        prefix + match self.eol {
            Eol::Crlf => expand_lf(buffer),
            Eol::Lf => buffer,
        }
    }
}


/// Whether `raw` begins with the UTF-8 byte-order mark.
fn has_bom(raw: &[u8]) -> (b: bool)
    ensures
        b == starts_with_bom(raw@),
{
    if raw.len() >= 3 && raw[0] == 0xEF && raw[1] == 0xBB && raw[2] == 0xBF {
        assert(raw@.take(3) =~= bom_bytes());
        true
    } else {
        proof {
            if raw@.len() >= 3 {
                assert(raw@.take(3)[0] == raw@[0]);
                assert(raw@.take(3)[1] == raw@[1]);
                assert(raw@.take(3)[2] == raw@[2]);
            }
        }
        false
    }
}

impl FileFormat {
    /// Read the style of the original file. EOL is decided by majority so a stray lone `\n` in an
    /// otherwise-CRLF file does not flip the verdict (and vice-versa). A new/empty file is `Lf`.
    pub fn detect(raw: &[u8]) -> (f: FileFormat)
        ensures
            f == FileFormat::detected(raw@),
    {
        let bom = has_bom(raw);
        let start: usize = if bom { 3 } else { 0 };
        let len = raw.len();
        let ghost body = body_of(raw@, true);
        assert(body =~= raw@.subrange(start as int, len as int));
        let mut crlf: usize = 0;
        let mut lf: usize = 0;
        let mut i = start;
        while i < len
            invariant
                start <= i <= len,
                len == raw@.len(),
                body == raw@.subrange(start as int, len as int),
                crlf + count_crlf(raw@.subrange(i as int, len as int)) == count_crlf(body),
                lf + count_lf(raw@.subrange(i as int, len as int)) == count_lf(body),
                crlf <= i - start,
                lf <= i - start,
            decreases len - i,
        {
            let ghost rest = raw@.subrange(i as int, len as int);
            assert(rest.drop_first() =~= raw@.subrange(i + 1, len as int));
            if raw[i] == LF {
                lf += 1;
            }
            if i + 1 < len && raw[i] == CR && raw[i + 1] == LF {
                crlf += 1;
            }
            i += 1;
        }
        assert(raw@.subrange(len as int, len as int).len() == 0);
        let bare = lf.saturating_sub(crlf);
        let eol = if crlf > bare { Eol::Crlf } else { Eol::Lf };
        FileFormat { eol, bom }
    }

    /// Normalise raw file bytes into clean editor bytes: drop the BOM, fold `\r\n` → `\n`. The
    /// editor never sees `^M` or a BOM char; the style is remembered in `self` for save.
    pub fn to_buffer(self, raw: &[u8]) -> (out: Vec<u8>)
        ensures
            out@ == self.buffer_of(raw@),
    {
        let start: usize = if self.bom && has_bom(raw) { 3 } else { 0 };
        let len = raw.len();
        let ghost body = body_of(raw@, self.bom);
        assert(body =~= raw@.subrange(start as int, len as int));
        let mut out: Vec<u8> = Vec::new();
        let mut i = start;
        match self.eol {
            Eol::Crlf => {
                while i < len
                    invariant
                        start <= i <= len,
                        len == raw@.len(),
                        body == raw@.subrange(start as int, len as int),
                        out@ + fold_crlf(raw@.subrange(i as int, len as int)) == fold_crlf(body),
                    decreases len - i,
                {
                    let ghost rest = raw@.subrange(i as int, len as int);
                    assert(rest.drop_first() =~= raw@.subrange(i + 1, len as int));
                    if raw[i] == CR && i + 1 < len && raw[i + 1] == LF {
                        i += 1;
                    } else {
                        let ghost before = out@;
                        out.push(raw[i]);
                        assert(before + fold_crlf(rest) =~= out@ + fold_crlf(rest.drop_first()));
                        i += 1;
                    }
                }
                assert(out@ =~= out@ + fold_crlf(raw@.subrange(len as int, len as int)));
            },
            Eol::Lf => {
                while i < len
                    invariant
                        start <= i <= len,
                        len == raw@.len(),
                        out@ == raw@.subrange(start as int, i as int),
                    decreases len - i,
                {
                    out.push(raw[i]);
                    assert(out@ =~= raw@.subrange(start as int, i + 1));
                    i += 1;
                }
            },
        }
        out
    }

    /// Restore the original style for writing to disk: re-expand `\n` → `\r\n` for a CRLF file and
    /// re-prepend the BOM. The inverse of [`FileFormat::to_buffer`].
    pub fn to_disk(self, buffer: &[u8]) -> (out: Vec<u8>)
        ensures
            out@ == self.disk_of(buffer@),
    {
        let mut out: Vec<u8> = Vec::new();
        if self.bom {
            out.push(0xEF);
            out.push(0xBB);
            out.push(0xBF);
        }
        let ghost prefix = out@;
        assert(prefix == (if self.bom { bom_bytes() } else { seq![] }));
        let len = buffer.len();
        let mut i: usize = 0;
        assert(buffer@.subrange(0, len as int) =~= buffer@);
        match self.eol {
            Eol::Crlf => {
                while i < len
                    invariant
                        i <= len,
                        len == buffer@.len(),
                        out@ + expand_lf(buffer@.subrange(i as int, len as int)) == prefix
                            + expand_lf(buffer@),
                    decreases len - i,
                {
                    let ghost rest = buffer@.subrange(i as int, len as int);
                    assert(rest.drop_first() =~= buffer@.subrange(i + 1, len as int));
                    let ghost before = out@;
                    let b = buffer[i];
                    if b == LF {
                        out.push(CR);
                    }
                    out.push(b);
                    assert(before + expand_lf(rest) =~= out@ + expand_lf(rest.drop_first()));
                    i += 1;
                }
                assert(buffer@.subrange(0, len as int) =~= buffer@);
                assert(out@ =~= out@ + expand_lf(buffer@.subrange(len as int, len as int)));
            },
            Eol::Lf => {
                while i < len
                    invariant
                        i <= len,
                        len == buffer@.len(),
                        out@ == prefix + buffer@.subrange(0, i as int),
                    decreases len - i,
                {
                    out.push(buffer[i]);
                    assert(out@ =~= prefix + buffer@.subrange(0, i + 1));
                    i += 1;
                }
                assert(buffer@.subrange(0, len as int) =~= buffer@);
            },
        }
        out
    }
}

/// An expansion never starts with a bare `\n`.
proof fn lemma_expand_head(s: Seq<u8>)
    ensures
        expand_lf(s).len() >= s.len(),
        expand_lf(s).len() > 0 ==> expand_lf(s)[0] != LF,
    decreases s.len(),
{
    if s.len() > 0 {
        lemma_expand_head(s.drop_first());
    }
}

/// Folding undoes expanding.
proof fn lemma_fold_expand(s: Seq<u8>)
    ensures
        fold_crlf(expand_lf(s)) == s,
    decreases s.len(),
{
    if s.len() > 0 {
        let t = s.drop_first();
        let et = expand_lf(t);
        lemma_fold_expand(t);
        lemma_expand_head(t);
        let e = expand_lf(s);
        if s[0] == LF {
            assert(e =~= seq![CR, LF] + et);
            assert(e.drop_first() =~= seq![LF] + et);
            assert(e.drop_first().drop_first() =~= et);
            assert(fold_crlf(e) == fold_crlf(e.drop_first()));
            assert(fold_crlf(e.drop_first()) == seq![LF] + fold_crlf(et));
            assert(s =~= seq![LF] + t);
        } else {
            assert(e =~= seq![s[0]] + et);
            assert(e.drop_first() =~= et);
            assert(fold_crlf(e) == seq![s[0]] + fold_crlf(et));
            assert(s =~= seq![s[0]] + t);
        }
    }
}

/// Expanding undoes folding on text whose every `\n` follows a `\r`.
proof fn lemma_expand_fold(s: Seq<u8>)
    requires
        all_lf_after_cr(s),
    ensures
        expand_lf(fold_crlf(s)) == s,
    decreases s.len(),
{
    if s.len() > 0 {
        assert(s[0] != LF);
        if s[0] == CR && s.len() >= 2 && s[1] == LF {
            let t1 = s.drop_first();
            let t2 = t1.drop_first();
            assert forall|i: int| 0 <= i < t2.len() && #[trigger] t2[i] == LF implies i > 0 && t2[i - 1] == CR by {
                assert(s[i + 2] == LF);
            }
            lemma_expand_fold(t2);
            assert(fold_crlf(t1) == seq![LF] + fold_crlf(t2));
            let f = fold_crlf(s);
            assert(f == fold_crlf(t1));
            assert((seq![LF] + fold_crlf(t2)).drop_first() =~= fold_crlf(t2));
            assert(expand_lf(f) == seq![CR, LF] + expand_lf(fold_crlf(t2)));
            assert(s =~= seq![CR, LF] + t2);
        } else {
            let t = s.drop_first();
            assert forall|i: int| 0 <= i < t.len() && #[trigger] t[i] == LF implies i > 0 && t[i - 1] == CR by {
                assert(s[i + 1] == LF);
            }
            lemma_expand_fold(t);
            let f = fold_crlf(s);
            assert(f == seq![s[0]] + fold_crlf(t));
            assert(f.drop_first() =~= fold_crlf(t));
            assert(expand_lf(f) == seq![s[0]] + expand_lf(fold_crlf(t)));
            assert(s =~= seq![s[0]] + t);
        }
    }
}

/// Saving an editor buffer and loading it back with the same format gives back exactly the
/// buffer, whatever bytes it holds and whatever the format is.
pub proof fn law_load_after_save(fmt: FileFormat, buffer: Seq<u8>)
    ensures
        fmt.buffer_of(fmt.disk_of(buffer)) == buffer,
{
    let d = fmt.disk_of(buffer);
    let payload = match fmt.eol {
        Eol::Crlf => expand_lf(buffer),
        Eol::Lf => buffer,
    };
    if fmt.bom {
        assert(d.take(3) =~= bom_bytes());
        assert(d.skip(3) =~= payload);
    } else {
        assert(d =~= payload);
    }
    assert(body_of(d, fmt.bom) == payload);
    if fmt.eol == Eol::Crlf {
        lemma_fold_expand(buffer);
    }
}

/// Loading a file and saving it back with the same format reproduces the file byte for byte,
/// provided the format fits it: a BOM that is recorded is present, and in CRLF style every
/// `\n` of the body follows a `\r`.
pub proof fn law_save_after_load(fmt: FileFormat, raw: Seq<u8>)
    requires
        fmt.bom ==> starts_with_bom(raw),
        fmt.eol == Eol::Crlf ==> all_lf_after_cr(body_of(raw, fmt.bom)),
    ensures
        fmt.disk_of(fmt.buffer_of(raw)) == raw,
{
    let body = body_of(raw, fmt.bom);
    if fmt.eol == Eol::Crlf {
        lemma_expand_fold(body);
    }
    if fmt.bom {
        assert(raw =~= raw.take(3) + raw.skip(3));
    } else {
        assert(seq![] + body =~= body);
    }
}

} // verus!
