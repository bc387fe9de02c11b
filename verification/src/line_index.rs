//! A line index cached per buffer revision: the byte offset of every line start, rebuilt only
//! when the revision changes, so that "which line holds this byte" and "where does line N start"
//! are answered by a binary search and a lookup instead of a scan from byte 0.
use vstd::prelude::*;
use crate::lsp::model::lemma_count_lf_concat;
use crate::persist::encoding::{count_lf, LF};

verus! {

/// A buffer revision: the buffer's bytes are the same at two equal revisions.
#[derive(Clone, Copy, PartialEq, Eq, Debug, Structural)]
pub struct Revision(pub u64);

/// The line starts of `t`: 0, then the offset just after each `\n`, in order.
pub open spec fn line_starts(t: Seq<u8>) -> Seq<int>
    decreases t.len(),
{
    if t.len() == 0 {
        seq![0]
    } else {
        let s = line_starts(t.drop_last());
        if t.last() == LF {
            s.push(t.len() as int)
        } else {
            s
        }
    }
}

/// The 0-based line holding byte `byte` of `t`: the number of `\n` before it (a byte past the
/// end counts every `\n`).
pub open spec fn line_of_byte(t: Seq<u8>, byte: int) -> int {
    count_lf(t.take(if byte < t.len() { byte } else { t.len() as int })) as int
}

/// The byte where 0-based line `line` of `t` starts, or the end of `t` past the last line.
pub open spec fn nth_start(t: Seq<u8>, line: int) -> int {
    if 0 <= line < line_starts(t).len() {
        line_starts(t)[line]
    } else {
        t.len() as int
    }
}

/// The line index of a buffer at one revision.
pub struct LineIndex {
    rev: Option<Revision>,
    /// The byte offset of every line start; `starts[0]` is 0, one entry per line.
    starts: Vec<usize>,
    /// The buffer length, where a line past the last one starts.
    len: usize,
    /// The bytes the index was built from.
    text: Ghost<Seq<u8>>,
}

impl LineIndex {
    #[verifier::type_invariant]
    spec fn inv(self) -> bool {
        &&& self.starts@.len() == line_starts(self.text@).len()
        &&& forall|k: int| 0 <= k < self.starts@.len() ==> self.starts@[k] as int == #[trigger] line_starts(self.text@)[k]
        &&& self.len == self.text@.len()
    }

    /// The revision the index was built at, if any.
    pub closed spec fn revision(self) -> Option<Revision> {
        self.rev
    }

    /// The bytes the index describes.
    pub closed spec fn text(self) -> Seq<u8> {
        self.text@
    }

    /// An index of the empty buffer, built at no revision.
    pub fn new() -> (r: LineIndex)
        ensures
            r.revision() is None,
            r.text() == Seq::<u8>::empty(),
    {
        LineIndex { rev: None, starts: vec![0], len: 0, text: Ghost(Seq::empty()) }
    }

    /// Rebuilds the index for `bytes` at `rev` when the revision changed; at an unchanged
    /// revision the index is kept as it is, whatever `bytes` holds.
    pub fn refresh(&mut self, rev: Revision, bytes: &[u8])
        ensures
            old(self).revision() == Some(rev) ==> *final(self) == *old(self),
            old(self).revision() != Some(rev) ==> final(self).revision() == Some(rev) && final(self).text()
                == bytes@,
    {
        if let Some(r) = self.rev {
            if r.0 == rev.0 {
                return;
            }
        }
        let mut starts: Vec<usize> = vec![0];
        let mut i: usize = 0;
        assert(bytes@.take(0) =~= Seq::<u8>::empty());
        while i < bytes.len()
            invariant
                i <= bytes@.len(),
                starts@.len() == line_starts(bytes@.take(i as int)).len(),
                forall|k: int| 0 <= k < starts@.len() ==> starts@[k] as int == #[trigger] line_starts(bytes@.take(i as int))[k],
            decreases bytes.len() - i,
        {
            assert(bytes@.take(i + 1).drop_last() =~= bytes@.take(i as int));
            assert(bytes@.take(i + 1).last() == bytes@[i as int]);
            if bytes[i] == LF {
                starts.push(i + 1);
            }
            i += 1;
        }
        assert(bytes@.take(bytes@.len() as int) =~= bytes@);
        *self = LineIndex { rev: Some(rev), starts, len: bytes.len(), text: Ghost(bytes@) };
    }

    /// The 0-based line holding byte `byte` (see `line_of_byte`), found by binary search.
    pub fn line_of(&self, byte: usize) -> (r: usize)
        ensures
            r == line_of_byte(self.text(), byte as int),
    {
        proof {
            use_type_invariant(self);
            lemma_line_starts(self.text@);
            lemma_line_starts_around(self.text@, byte as int);
        }
        let ghost t = self.text@;
        let ghost ls = line_starts(t);
        let n = self.starts.len();
        let mut lo: usize = 0;
        let mut hi: usize = n;
        while lo < hi
            invariant
                lo <= hi <= n,
                n == self.starts@.len(),
                n == ls.len(),
                forall|k: int| 0 <= k < n ==> self.starts@[k] as int == #[trigger] ls[k],
                forall|a: int, b: int| 0 <= a < b < ls.len() ==> ls[a] < ls[b],
                forall|k: int| 0 <= k < lo ==> #[trigger] ls[k] <= byte,
                forall|k: int| hi <= k < n ==> #[trigger] ls[k] > byte,
            decreases hi - lo,
        {
            let mid = lo + (hi - lo) / 2;
            assert(self.starts@[mid as int] as int == ls[mid as int]);
            if self.starts[mid] <= byte {
                assert forall|k: int| 0 <= k < mid + 1 implies #[trigger] ls[k] <= byte by {
                    if k < mid {
                        assert(ls[k] < ls[mid as int]);
                    }
                }
                lo = mid + 1;
            } else {
                assert forall|k: int| mid <= k < n implies #[trigger] ls[k] > byte by {
                    if k > mid {
                        assert(ls[mid as int] < ls[k]);
                    }
                }
                hi = mid;
            }
        }
        let ghost m = line_of_byte(t, byte as int);
        proof {
            assert(ls[m] <= byte);
            assert(m < lo);
            if m + 1 < n {
                assert(ls[m + 1] > byte);
            }
        }
        lo - 1
    }

    /// The byte where 0-based `line` starts, or the buffer's end past the last line
    /// (see `nth_start`).
    pub fn nth_line_start(&self, line: usize) -> (r: usize)
        ensures
            r == nth_start(self.text(), line as int),
    {
        proof {
            use_type_invariant(self);
        }
        if line < self.starts.len() {
            self.starts[line]
        } else {
            self.len
        }
    }
}

impl Default for LineIndex {
    fn default() -> (r: LineIndex)
        ensures
            r.revision() is None,
            r.text() == Seq::<u8>::empty(),
    {
        LineIndex::new()
    }
}

/// The line starts are 0 first, strictly increasing, within the text, one more than its `\n`s.
proof fn lemma_line_starts(t: Seq<u8>)
    ensures
        line_starts(t).len() == count_lf(t) + 1,
        line_starts(t)[0] == 0,
        forall|a: int, b: int| 0 <= a < b < line_starts(t).len() ==> line_starts(t)[a] < line_starts(t)[b],
        forall|k: int| 0 <= k < line_starts(t).len() ==> 0 <= #[trigger] line_starts(t)[k] <= t.len(),
    decreases t.len(),
{
    if t.len() > 0 {
        let u = t.drop_last();
        lemma_line_starts(u);
        lemma_count_lf_last(t);
    }
}

/// Counting `\n`s from the back: the last byte adds one when it is `\n`.
proof fn lemma_count_lf_last(t: Seq<u8>)
    requires
        t.len() > 0,
    ensures
        count_lf(t) == count_lf(t.drop_last()) + (if t.last() == LF { 1nat } else { 0nat }),
{
    lemma_count_lf_concat(t.drop_last(), seq![t.last()]);
    assert(t.drop_last() + seq![t.last()] =~= t);
    let one = seq![t.last()];
    assert(one.drop_first() =~= Seq::<u8>::empty());
    assert(count_lf(one.drop_first()) == 0);
    assert(one[0] == t.last());
    assert(count_lf(one) == (if t.last() == LF { 1nat } else { 0nat }));
}

/// The line of `byte` starts at or before it, and the next line starts after it.
proof fn lemma_line_starts_around(t: Seq<u8>, byte: int)
    requires
        byte >= 0,
    ensures
        0 <= line_of_byte(t, byte) < line_starts(t).len(),
        line_starts(t)[line_of_byte(t, byte)] <= byte,
        line_of_byte(t, byte) + 1 < line_starts(t).len() ==> line_starts(t)[line_of_byte(t, byte) + 1] > byte,
    decreases t.len(),
{
    lemma_line_starts(t);
    if t.len() > 0 {
        let u = t.drop_last();
        lemma_line_starts_around(u, byte);
        lemma_line_starts(u);
        lemma_count_lf_last(t);
        if byte >= t.len() {
            assert(t.take(t.len() as int) =~= t);
            assert(u.take(u.len() as int) =~= u);
        } else {
            assert(t.take(byte) =~= u.take(byte));
        }
    } else {
        assert(t.take(0) =~= t);
    }
}

/// Law: the line of a line's start is that line: for every line of the indexed text,
/// `line_of(nth_line_start(line)) == line`.
pub proof fn law_line_of_its_start(t: Seq<u8>, line: int)
    requires
        0 <= line <= count_lf(t),
    ensures
        line_of_byte(t, nth_start(t, line)) == line,
{
    lemma_line_starts(t);
    let s = nth_start(t, line);
    lemma_line_starts_around(t, s);
    let m = line_of_byte(t, s);
    assert(line_starts(t)[line] == s);
    if m < line {
        assert(line_starts(t)[m + 1] > s);
        if m + 1 < line {
            assert(line_starts(t)[m + 1] < line_starts(t)[line]);
        }
    } else if m > line {
        assert(line_starts(t)[line] < line_starts(t)[m]);
    }
}

} // verus!
