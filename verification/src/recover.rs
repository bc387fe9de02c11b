//! Crash recovery on panic, apart from its I/O: the latest buffer state is recorded after each
//! command; when a panic comes, that state is appended to the recovery journal if (and only if) it
//! holds unsaved work, and the outcome is reported.
use vstd::prelude::*;
use crate::persist::bytes_to_vec;
use crate::persist::journal::{journal_path, journal_path_of};
use crate::text::owned;

verus! {

/// The latest buffer state: its file (none for an unnamed buffer), its bytes, and whether it
/// differs from the file on disk.
pub struct Snapshot {
    pub path: Option<String>,
    pub bytes: Vec<u8>,
    pub modified: bool,
}

/// The view of an optional path.
pub open spec fn path_view(p: Option<String>) -> Option<Seq<char>> {
    match p {
        Some(s) => Some(s@),
        None => None,
    }
}

impl Snapshot {
    /// No buffer recorded yet: unnamed, empty, unmodified.
    pub fn new() -> (s: Snapshot)
        ensures
            s.path is None,
            s.bytes@ == Seq::<u8>::empty(),
            !s.modified,
    {
        Snapshot { path: None, bytes: Vec::new(), modified: false }
    }

    /// Records the latest buffer state, replacing the previous one.
    pub fn update(&mut self, path: Option<&str>, bytes: &[u8], modified: bool)
        ensures
            path_view(final(self).path) == match path {
                Some(p) => Some(p@),
                None => None,
            },
            final(self).bytes@ == bytes@,
            final(self).modified == modified,
    {
        self.path = match path {
            Some(p) => Some(owned(p)),
            None => None,
        };
        self.bytes = bytes_to_vec(bytes);
        self.modified = modified;
    }

    /// The record a panic appends to the journal: the buffer's bytes when it holds unsaved work,
    /// nothing when it matches the disk.
    pub fn pending_record(&self) -> (r: Option<&[u8]>)
        ensures
            self.modified ==> (r matches Some(b) && b@ == self.bytes@),
            !self.modified ==> r is None,
    {
        if self.modified {
            Some(self.bytes.as_slice())
        } else {
            None
        }
    }
}

/// The outcome of a recovery attempt.
#[derive(Clone, PartialEq, Eq, Debug)]
pub enum Recovery {
    /// Nothing to save: the buffer matched disk.
    Clean,
    /// Unsaved work was appended to this journal file.
    Written(String),
    /// The buffer was modified but appending it failed; the cause.
    Failed(String),
}

/// What a panic reports once the snapshot's record was appended (`Ok`) or could not be (`Err`
/// with the cause): the journal of the snapshot's file, or the failure.
pub fn recovery_outcome(path: Option<&str>, appended: Result<(), String>) -> (r: Recovery)
    ensures
        appended is Ok ==> (r matches Recovery::Written(j) && j@ == journal_path_of(match path {
            Some(p) => Some(p@),
            None => None,
        })),
        appended matches Err(e) ==> r == Recovery::Failed(e),
{
    match appended {
        Ok(()) => Recovery::Written(journal_path(path)),
        Err(e) => Recovery::Failed(e),
    }
}

} // verus!
