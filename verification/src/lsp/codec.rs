//! `Content-Length` framing, shared by the language-server and the remote-agent wires: a
//! message is `Content-Length: N\r\n\r\n` followed by an `N`-byte body. This module frames a body
//! and classifies the header lines that a reader meets; the reading itself is the caller's I/O.
use vstd::prelude::*;
use vstd::utf8::*;
use crate::lsp::model::{find_newline, lemma_encode_first, lemma_next_newline, lemma_next_newline_skip, lemma_scalar_lf, next_newline};
use crate::persist::bytes_to_vec;
use crate::text::{chars_of, lemma_encode_concat, lemma_encode_push, lemma_str_bytes, push_char, utf8_str};
use crate::persist::encoding::LF;
use crate::words::{all_digits, digits_value, parse_uint, strip_prefix, trim, trim_of};
use crate::input::ex::range::{parse_usize, parse_usize_chars};
use crate::text::{digit_value, is_digit};

verus! {

/// The decimal digit character of `d` (below ten).
pub open spec fn digit_char(d: nat) -> char {
    (d + 48) as char
}

/// The decimal numeral of `n`, without leading zeros.
pub open spec fn decimal(n: nat) -> Seq<char>
    decreases n,
{
    if n < 10 {
        seq![digit_char(n)]
    } else {
        decimal(n / 10).push(digit_char(n % 10))
    }
}

/// The decimal numeral of `n`.
pub fn decimal_chars(n: usize) -> (v: Vec<char>)
    ensures
        v@ == decimal(n as nat),
    decreases n,
{
    if n < 10 {
        let c = ((n as u8) + 48) as char;
        vec![c]
    } else {
        let mut v = decimal_chars(n / 10);
        let c = (((n % 10) as u8) + 48) as char;
        v.push(c);
        v
    }
}

/// The header text announcing a body of `n` bytes.
pub open spec fn header_text(n: nat) -> Seq<char> {
    "Content-Length: "@ + decimal(n) + "\r\n\r\n"@
}

/// The frame of a message body: its header, then the body.
pub open spec fn framed_message(body: Seq<u8>) -> Seq<u8> {
    encode_utf8(header_text(body.len())) + body
}

/// Frames a message body (see `framed_message`).
pub fn frame_message(body: &[u8]) -> (out: Vec<u8>)
    ensures
        out@ == framed_message(body@),
{
    let mut s = String::new();
    let head = chars_of("Content-Length: ");
    let digits = decimal_chars(body.len());
    let tail = chars_of("\r\n\r\n");
    let mut all: Vec<char> = Vec::new();
    let mut parts = head;
    all.append(&mut parts);
    let mut d = digits;
    all.append(&mut d);
    let mut t = tail;
    all.append(&mut t);
    let mut k: usize = 0;
    while k < all.len()
        invariant
            k <= all@.len(),
            all@ == header_text(body@.len()),
            s@ == all@.take(k as int),
        decreases all.len() - k,
    {
        push_char(&mut s, all[k]);
        assert(all@.take(k + 1) =~= all@.take(k as int).push(all@[k as int]));
        k += 1;
    }
    assert(all@.take(all@.len() as int) =~= all@);
    let mut out = bytes_to_vec(s.as_str().as_bytes());
    let mut b = bytes_to_vec(body);
    out.append(&mut b);
    out
}

/// What a header line is, once its line ending is trimmed.
#[derive(Clone, Copy, PartialEq, Eq, Debug, Structural)]
pub enum HeaderLine {
    /// The empty line that ends the header block.
    End,
    /// A `Content-Length:` line: the length, when the trimmed value is a number.
    Length(Option<usize>),
    /// Any other header.
    Other,
}

/// `s` without trailing CR and LF characters.
pub open spec fn trim_line_end(s: Seq<char>) -> Seq<char>
    decreases s.len(),
{
    if s.len() > 0 && (s.last() == '\r' || s.last() == '\n') {
        trim_line_end(s.drop_last())
    } else {
        s
    }
}

/// A header line: empty (after trimming the line ending) ends the block; `Content-Length:`
/// gives the trimmed value as a number, if it is one; anything else is another header.
pub open spec fn header_line_of(line: Seq<char>) -> HeaderLine {
    let t = trim_line_end(line);
    if t.len() == 0 {
        HeaderLine::End
    } else if "Content-Length:"@.is_prefix_of(t) {
        match parse_usize(trim_of(t.skip("Content-Length:"@.len() as int))) {
            Some(n) => HeaderLine::Length(Some(n as usize)),
            None => HeaderLine::Length(None),
        }
    } else {
        HeaderLine::Other
    }
}

/// Classifies a header line (see `header_line_of`).
pub fn header_line(line: &str) -> (r: HeaderLine)
    ensures
        r == header_line_of(line@),
{
    let cs = chars_of(line);
    let mut n = cs.len();
    assert(cs@.take(n as int) =~= cs@);
    while n > 0 && (cs[n - 1] == '\r' || cs[n - 1] == '\n')
        invariant
            n <= cs@.len(),
            trim_line_end(cs@.take(n as int)) == trim_line_end(line@),
            cs@ == line@,
        decreases n,
    {
        assert(cs@.take(n as int).drop_last() =~= cs@.take(n - 1));
        n -= 1;
    }
    let t = crate::words::copy_range(cs.as_slice(), 0, n);
    assert(t@ =~= cs@.take(n as int));
    assert(trim_line_end(t@) == t@);
    if t.len() == 0 {
        return HeaderLine::End;
    }
    match strip_prefix(t.as_slice(), "Content-Length:") {
        Some(v) => {
            let vt = trim(v.as_slice());
            HeaderLine::Length(parse_usize_chars(vt.as_slice()))
        },
        None => HeaderLine::Other,
    }
}

/// A numeral is all digits, leads with a digit, and spells its number.
proof fn lemma_decimal(n: nat)
    ensures
        decimal(n).len() >= 1,
        all_digits(decimal(n)),
        digits_value(decimal(n)) == n,
    decreases n,
{
    assert((digit_char(n % 10) as u32) == n % 10 + 48);
    assert(digit_value(digit_char(n % 10)) == n % 10);
    if n < 10 {
        assert(seq![digit_char(n)].drop_last() =~= Seq::<char>::empty());
        assert(n % 10 == n);
        assert(digits_value(seq![digit_char(n)]) == digits_value(Seq::<char>::empty()) * 10 + digit_value(digit_char(n)));
    } else {
        lemma_decimal(n / 10);
        let d = decimal(n / 10);
        let e = d.push(digit_char(n % 10));
        assert(e.drop_last() =~= d);
        assert(digits_value(e) == digits_value(d) * 10 + digit_value(e.last()));
        assert(n == (n / 10) * 10 + n % 10) by (nonlinear_arith);
        assert forall|k: int| 0 <= k < e.len() implies #[trigger] is_digit(e[k]) by {
            if k < d.len() {
                assert(e[k] == d[k]);
            }
        }
    }
}

/// Trimming whitespace around a numeral preceded by one space gives the numeral.
proof fn lemma_trim_space_numeral(d: Seq<char>)
    requires
        d.len() >= 1,
        all_digits(d),
    ensures
        crate::words::trim_of(seq![' '] + d) == d,
{
    let s = seq![' '] + d;
    assert(is_digit(d[0]));
    assert(s[1] == d[0]);
    assert(crate::words::first_non_ws(s, 1) == 1);
    assert(crate::words::first_non_ws(s, 0) == 1);
    assert(s.skip(1) =~= d);
    assert(is_digit(d[d.len() - 1]));
    assert(crate::words::end_non_ws(d, d.len() as int) == d.len());
    assert(d.take(d.len() as int) =~= d);
}

/// Trimming the line ending of a numeral line leaves the line's text.
proof fn lemma_trim_crlf(t: Seq<char>)
    requires
        t.len() >= 1,
        is_digit(t.last()),
    ensures
        trim_line_end(t + seq!['\r', '\n']) == t,
{
    let a = t + seq!['\r', '\n'];
    assert(a.drop_last() =~= t.push('\r'));
    assert(t.push('\r').drop_last() =~= t);
    assert(a.last() == '\n');
    assert(trim_line_end(a) == trim_line_end(t.push('\r')));
    assert(t.push('\r').last() == '\r');
    assert(trim_line_end(t.push('\r')) == trim_line_end(t));
    assert(t.last() != '\r' && t.last() != '\n');
}

/// Law: the header line a frame begins with reads back as the body's length, and the line after
/// it ends the header block.
pub proof fn law_frame_header_reads_back(n: usize)
    ensures
        header_text(n as nat) == ("Content-Length: "@ + decimal(n as nat) + "\r\n"@) + "\r\n"@,
        header_line_of("Content-Length: "@ + decimal(n as nat) + "\r\n"@) == HeaderLine::Length(Some(n)),
        header_line_of("\r\n"@) == HeaderLine::End,
{
    reveal_strlit("Content-Length: ");
    reveal_strlit("Content-Length:");
    reveal_strlit("\r\n");
    reveal_strlit("\r\n\r\n");
    let d = decimal(n as nat);
    lemma_decimal(n as nat);
    assert(header_text(n as nat) =~= ("Content-Length: "@ + d + "\r\n"@) + "\r\n"@);
    let t = "Content-Length: "@ + d;
    assert(is_digit(d[d.len() - 1]));
    assert(t.last() == d.last());
    lemma_trim_crlf(t);
    assert(t + seq!['\r', '\n'] =~= "Content-Length: "@ + d + "\r\n"@);
    assert("Content-Length:"@.is_prefix_of(t));
    assert(t.skip("Content-Length:"@.len() as int) =~= seq![' '] + d);
    lemma_trim_space_numeral(d);
    assert(d[0] != '+') by {
        assert(is_digit(d[0]));
    }
    assert(parse_uint(d, usize::MAX as nat) == Some(n as nat));
    assert(trim_line_end("\r\n"@.drop_last()) == trim_line_end(seq!['\r'].drop_last())) by {
        assert("\r\n"@.drop_last() =~= seq!['\r']);
    }
    assert(seq!['\r'].drop_last() =~= Seq::<char>::empty());
}

/// What reading one frame off a buffer of received bytes finds.
#[derive(Clone, Copy, PartialEq, Eq, Debug, Structural)]
pub enum FrameRead {
    /// The bytes end before the frame does: a header line without its `\n`, or a body shorter
    /// than announced. More bytes are needed (at the end of the stream: there is no more frame).
    Pending,
    /// A header line is not UTF-8; the stream cannot be read on.
    BadHeader,
    /// A header block without a usable `Content-Length`: the frame is skipped and the next one
    /// starts at `next`.
    Malformed { next: usize },
    /// A frame whose body is the `len` bytes at `start`; the next frame starts right after it.
    Frame { start: usize, len: usize },
}

/// Reading a frame's header lines from `pos`, with `len` the `Content-Length` seen so far. Each
/// line ends with its `\n`; a later `Content-Length` line overrides an earlier one, and one whose
/// value is no number leaves no length.
pub open spec fn scan_frame(buf: Seq<u8>, pos: int, len: Option<usize>) -> FrameRead
    decreases buf.len() - pos,
{
    if pos < 0 || pos >= buf.len() {
        FrameRead::Pending
    } else {
        match next_newline(buf, pos) {
            None => FrameRead::Pending,
            Some(nl) => {
                proof {
                    lemma_next_newline(buf, pos);
                }
                let line = buf.subrange(pos, nl + 1);
                if !valid_utf8(line) {
                    FrameRead::BadHeader
                } else {
                    match header_line_of(decode_utf8(line)) {
                        HeaderLine::End => match len {
                            None => FrameRead::Malformed { next: (nl + 1) as usize },
                            Some(n) => if nl + 1 + n <= buf.len() {
                                FrameRead::Frame { start: (nl + 1) as usize, len: n }
                            } else {
                                FrameRead::Pending
                            },
                        },
                        HeaderLine::Length(v) => scan_frame(buf, nl + 1, v),
                        HeaderLine::Other => scan_frame(buf, nl + 1, len),
                    }
                }
            },
        }
    }
}

/// Reads the frame that starts at `pos` in `buf` (see `scan_frame`).
pub fn read_frame(buf: &[u8], pos: usize) -> (r: FrameRead)
    ensures
        r == scan_frame(buf@, pos as int, None),
{
    let mut at = pos;
    let mut len: Option<usize> = None;
    loop
        invariant
            pos <= at,
            scan_frame(buf@, at as int, len) == scan_frame(buf@, pos as int, None),
        decreases buf@.len() - at,
    {
        if at >= buf.len() {
            return FrameRead::Pending;
        }
        let nl = match find_newline(buf, at) {
            None => {
                return FrameRead::Pending;
            },
            Some(nl) => nl,
        };
        let line = &buf[at..nl + 1];
        assert(line@ =~= buf@.subrange(at as int, nl + 1));
        let s = match utf8_str(line) {
            None => {
                return FrameRead::BadHeader;
            },
            Some(s) => s,
        };
        proof {
            lemma_str_bytes(s);
        }
        match header_line(s) {
            HeaderLine::End => {
                return match len {
                    None => FrameRead::Malformed { next: nl + 1 },
                    Some(n) => if n <= buf.len() - (nl + 1) {
                        FrameRead::Frame { start: nl + 1, len: n }
                    } else {
                        FrameRead::Pending
                    },
                };
            },
            HeaderLine::Length(v) => {
                len = v;
            },
            HeaderLine::Other => {},
        }
        at = nl + 1;
    }
}

/// The encoding of characters other than `\n` holds no `\n` byte.
proof fn lemma_encode_no_lf(cs: Seq<char>)
    requires
        forall|k: int| 0 <= k < cs.len() ==> #[trigger] cs[k] != '\n',
    ensures
        forall|j: int| 0 <= j < encode_utf8(cs).len() ==> #[trigger] encode_utf8(cs)[j] != LF,
    decreases cs.len(),
{
    if cs.len() > 0 {
        let r = cs.drop_first();
        assert forall|k: int| 0 <= k < r.len() implies #[trigger] r[k] != '\n' by {
            assert(r[k] == cs[k + 1]);
        }
        lemma_encode_no_lf(r);
        lemma_encode_first(cs);
        lemma_scalar_lf(cs[0]);
        let e = encode_scalar(cs[0] as u32);
        assert forall|j: int| 0 <= j < encode_utf8(cs).len() implies #[trigger] encode_utf8(cs)[j] != LF by {
            if j < e.len() {
                assert(encode_utf8(cs)[j] == e[j]);
            } else {
                assert(encode_utf8(cs)[j] == encode_utf8(r)[j - e.len()]);
            }
        }
    }
}

/// A line whose only `\n` is its last character, encoded at `pos`, ends at its last byte and
/// decodes back to itself.
proof fn lemma_line_at(buf: Seq<u8>, pos: int, line: Seq<char>)
    requires
        0 <= pos,
        line.len() >= 1,
        line.last() == '\n',
        forall|k: int| 0 <= k < line.len() - 1 ==> #[trigger] line[k] != '\n',
        pos + encode_utf8(line).len() <= buf.len(),
        buf.subrange(pos, pos + encode_utf8(line).len()) == encode_utf8(line),
    ensures
        encode_utf8(line).len() >= 1,
        next_newline(buf, pos) == Some(pos + encode_utf8(line).len() - 1),
        valid_utf8(encode_utf8(line)),
        decode_utf8(encode_utf8(line)) == line,
{
    let a = line.drop_last();
    assert(line =~= a.push('\n'));
    lemma_encode_push(a, '\n');
    lemma_scalar_lf('\n');
    assert forall|k: int| 0 <= k < a.len() implies #[trigger] a[k] != '\n' by {
        assert(a[k] == line[k]);
    }
    lemma_encode_no_lf(a);
    let ea = encode_utf8(a);
    let el = encode_utf8(line);
    assert(el == ea + seq![LF]);
    assert forall|k: int| pos <= k < pos + ea.len() implies #[trigger] buf[k] != LF by {
        assert(buf[k] == buf.subrange(pos, pos + el.len())[k - pos]);
        assert(el[k - pos] == ea[k - pos]);
    }
    lemma_next_newline_skip(buf, pos, pos + ea.len());
    assert(buf[pos + ea.len()] == buf.subrange(pos, pos + el.len())[ea.len() as int]);
    assert(el[ea.len() as int] == LF);
    encode_utf8_valid_utf8(line);
    encode_utf8_decode_utf8(line);
}

/// The length of a frame's header, in bytes.
pub open spec fn header_len(n: nat) -> nat {
    encode_utf8(header_text(n)).len()
}

/// Law: a framed body, sent after any bytes and followed by any bytes, reads back as that body,
/// and the next frame starts right after it.
pub proof fn law_frame_round_trip(before: Seq<u8>, body: Seq<u8>, after: Seq<u8>)
    requires
        before.len() + framed_message(body).len() + after.len() <= usize::MAX,
    ensures
        scan_frame(before + framed_message(body) + after, before.len() as int, None) == (FrameRead::Frame {
            start: (before.len() + header_len(body.len())) as usize,
            len: body.len() as usize,
        }),
        before.len() + header_len(body.len()) + body.len() == before.len() + framed_message(body).len(),
        (before + framed_message(body) + after).subrange(
            (before.len() + header_len(body.len())) as int,
            (before.len() + header_len(body.len()) + body.len()) as int,
        ) == body,
{
    let n = body.len() as usize;
    let buf = before + framed_message(body) + after;
    law_frame_header_reads_back(n);
    reveal_strlit("Content-Length: ");
    reveal_strlit("\r\n");
    lemma_decimal(n as nat);
    let d = decimal(n as nat);
    let l1 = "Content-Length: "@ + d + "\r\n"@;
    let l2 = "\r\n"@;
    lemma_encode_concat(l1, l2);
    let e1 = encode_utf8(l1);
    let e2 = encode_utf8(l2);
    let p0 = before.len() as int;
    let p1 = p0 + e1.len();
    let p2 = p1 + e2.len();
    assert(framed_message(body) == e1 + e2 + body);
    assert(buf =~= before + e1 + e2 + body + after);
    // The first header line.
    assert forall|k: int| 0 <= k < l1.len() - 1 implies #[trigger] l1[k] != '\n' by {
        if k < 16 {
            assert(l1[k] == "Content-Length: "@[k]);
        } else if k < 16 + d.len() {
            assert(l1[k] == d[k - 16]);
            assert(is_digit(d[k - 16]));
        } else {
            assert(l1[k] == '\r');
        }
    }
    assert(l1.last() == '\n');
    assert(buf.subrange(p0, p1) =~= e1);
    lemma_line_at(buf, p0, l1);
    assert(buf.subrange(p0, p1) == e1);
    // The line that ends the header block.
    assert forall|k: int| 0 <= k < l2.len() - 1 implies #[trigger] l2[k] != '\n' by {}
    assert(buf.subrange(p1, p2) =~= e2);
    lemma_line_at(buf, p1, l2);
    assert(p2 == p0 + header_len(body.len()));
    assert(scan_frame(buf, p1, Some(n)) == (FrameRead::Frame { start: p2 as usize, len: n }));
    assert(buf.subrange(p2, p2 + body.len()) =~= body);
}

} // verus!
