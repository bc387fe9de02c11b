//! Durable persistence and crash recovery: format preservation, the recovery journal, and the
//! open-time recovery decision.
//!
//! The cores are file-free: they take and return bytes, so the whole persistence contract is
//! checked here; the code that touches the disk lives outside the library.
pub mod atomic;
pub mod encoding;
pub mod journal;

use vstd::prelude::*;

verus! {

/// What a document's journal offers at open time, once compared against the on-disk file.
#[derive(Clone, PartialEq, Eq, Debug)]
pub enum Recovery {
    /// No journal, or its latest record already matches the disk file — nothing to recover.
    Nothing,
    /// Unsaved changes were found that differ from disk. The user chooses: keep the recovered
    /// buffer, or discard it and use the disk file. The original file is never auto-overwritten.
    Available(Vec<u8>),
}

/// Whether two byte slices hold the same bytes.
pub fn bytes_equal(a: &[u8], b: &[u8]) -> (r: bool)
    ensures
        r == (a@ == b@),
{
    if a.len() != b.len() {
        return false;
    }
    let mut i: usize = 0;
    while i < a.len()
        invariant
            a@.len() == b@.len(),
            i <= a@.len(),
            a@.take(i as int) == b@.take(i as int),
        decreases a.len() - i,
    {
        if a[i] != b[i] {
            assert(a@[i as int] != b@[i as int]);
            return false;
        }
        assert(a@.take(i + 1) =~= a@.take(i as int).push(a@[i as int]));
        assert(b@.take(i + 1) =~= b@.take(i as int).push(b@[i as int]));
        i += 1;
    }
    assert(a@ =~= a@.take(a@.len() as int));
    assert(b@ =~= b@.take(b@.len() as int));
    true
}

/// A copy of `s` as an owned vector.
pub fn bytes_to_vec(s: &[u8]) -> (v: Vec<u8>)
    ensures
        v@ == s@,
{
    let mut v: Vec<u8> = Vec::new();
    let mut i: usize = 0;
    while i < s.len()
        invariant
            i <= s@.len(),
            v@ == s@.take(i as int),
        decreases s.len() - i,
    {
        v.push(s[i]);
        assert(v@ =~= s@.take(i + 1));
        i += 1;
    }
    assert(s@.take(s@.len() as int) =~= s@);
    v
}

/// The open-time recovery decision, pure over the two byte sources. `disk` is the file's current
/// content; `recovered` is the journal's latest valid payload. A recovery is offered only when
/// the journal holds work that genuinely differs from disk.
pub fn assess_recovery(disk: &[u8], recovered: Option<&[u8]>) -> (r: Recovery)
    ensures
        match recovered {
            Some(rec) => if rec@ != disk@ {
                r matches Recovery::Available(v) && v@ == rec@
            } else {
                r is Nothing
            },
            None => r is Nothing,
        },
{
    match recovered {
        Some(rec) => {
            if !bytes_equal(rec, disk) {
                Recovery::Available(bytes_to_vec(rec))
            } else {
                Recovery::Nothing
            }
        },
        None => Recovery::Nothing,
    }
}

} // verus!
