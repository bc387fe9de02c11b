//! Command-line history rings and the recall walk. A [`CmdHistory`] ring holds ACCEPTED lines
//! (oldest first, most-recent last), and a [`HistWalk`] holds the transient cursor and saved draft
//! for one open prompt.
//!
//! `<Up>`/`<Down>` recall entries filtered by the draft typed before the walk began; `<C-p>`/`<C-n>`
//! walk the raw ring; `<Down>` past the newest restores the saved draft; an immediate repeat is
//! de-duplicated by moving it to the end; empty lines are not stored; the ring evicts oldest-first
//! at its cap.
use vstd::prelude::*;
use crate::text::{owned, str_equal, str_starts_with};

verus! {

/// The default history length.
pub const DEFAULT_CAP: usize = 200;

/// One history ring: accepted command/search lines, oldest first and most-recent LAST, bounded at
/// its capacity (oldest evicted first).
pub struct CmdHistory {
    entries: Vec<String>,
    cap: usize,
}

/// The transient recall cursor for ONE open prompt: the draft typed before the walk began
/// (captured on the first recall) and the index of the entry shown, or `None` for the draft.
pub struct HistWalk {
    draft: Option<String>,
    pos: Option<usize>,
}

/// `entries` without its occurrence of `line`, if it has one.
pub open spec fn without(entries: Seq<Seq<char>>, line: Seq<char>) -> Seq<Seq<char>> {
    if entries.contains(line) {
        entries.remove(entries.index_of(line))
    } else {
        entries
    }
}

/// The ring after accepting `line` with capacity `cap`: empty lines are not stored, a repeated
/// line moves to the end, and the oldest entries are evicted beyond `cap`.
pub open spec fn pushed(entries: Seq<Seq<char>>, line: Seq<char>, cap: nat) -> Seq<Seq<char>> {
    if line.len() == 0 {
        entries
    } else {
        let w = without(entries, line).push(line);
        if w.len() > cap {
            w.skip(w.len() - cap)
        } else {
            w
        }
    }
}

/// The ring is bounded by `cap`, holds no empty line and no line twice.
pub open spec fn ring_ok(entries: Seq<Seq<char>>, cap: nat) -> bool {
    &&& cap >= 1
    &&& entries.len() <= cap
    &&& entries.no_duplicates()
    &&& forall|i: int| 0 <= i < entries.len() ==> (#[trigger] entries[i]).len() > 0
}

/// Whether an entry is eligible during a walk: any entry when unfiltered, else one starting with
/// the draft.
pub open spec fn eligible(entry: Seq<char>, filter: bool, draft: Seq<char>) -> bool {
    !filter || draft.is_prefix_of(entry)
}

/// The greatest index below `start` whose entry is eligible.
pub open spec fn prev_match(entries: Seq<Seq<char>>, start: int, filter: bool, draft: Seq<char>) -> Option<int>
    decreases start,
{
    if start <= 0 {
        None
    } else if eligible(entries[start - 1], filter, draft) {
        Some(start - 1)
    } else {
        prev_match(entries, start - 1, filter, draft)
    }
}

/// The least index from `i` on whose entry is eligible.
pub open spec fn next_match(entries: Seq<Seq<char>>, i: int, filter: bool, draft: Seq<char>) -> Option<int>
    decreases entries.len() - i,
{
    if i >= entries.len() || i < 0 {
        None
    } else if eligible(entries[i], filter, draft) {
        Some(i)
    } else {
        next_match(entries, i + 1, filter, draft)
    }
}

proof fn lemma_prev_match_range(entries: Seq<Seq<char>>, start: int, filter: bool, draft: Seq<char>)
    ensures
        prev_match(entries, start, filter, draft) matches Some(j) ==> 0 <= j < start && eligible(
            entries[j],
            filter,
            draft,
        ),
    decreases start,
{
    if start > 0 {
        lemma_prev_match_range(entries, start - 1, filter, draft);
    }
}

proof fn lemma_next_match_range(entries: Seq<Seq<char>>, i: int, filter: bool, draft: Seq<char>)
    ensures
        next_match(entries, i, filter, draft) matches Some(j) ==> i <= j < entries.len() && eligible(
            entries[j],
            filter,
            draft,
        ),
    decreases entries.len() - i,
{
    if 0 <= i < entries.len() {
        lemma_next_match_range(entries, i + 1, filter, draft);
    }
}

/// The views of a slice of strings.
pub open spec fn views(v: Seq<String>) -> Seq<Seq<char>> {
    v.map_values(|s: String| s@)
}

/// The views of a slice of strings, element by element.
pub proof fn lemma_views(v: Seq<String>)
    ensures
        views(v).len() == v.len(),
        forall|j: int| 0 <= j < v.len() ==> #[trigger] views(v)[j] == v[j]@,
{
}

impl View for CmdHistory {
    type V = Seq<Seq<char>>;

    closed spec fn view(&self) -> Seq<Seq<char>> {
        views(self.entries@)
    }
}

impl CmdHistory {
    /// The capacity of the ring.
    pub closed spec fn capacity(&self) -> nat {
        self.cap as nat
    }

    /// The ring's invariant.
    pub open spec fn well_formed(&self) -> bool {
        ring_ok(self@, self.capacity())
    }

    /// An empty ring holding at most `cap` entries (at least one).
    pub fn new(cap: usize) -> (h: CmdHistory)
        ensures
            h@ == Seq::<Seq<char>>::empty(),
            h.capacity() == if cap >= 1 { cap as nat } else { 1 },
            h.well_formed(),
    {
        let h = CmdHistory { entries: Vec::new(), cap: if cap >= 1 { cap } else { 1 } };
        assert(h@ =~= Seq::<Seq<char>>::empty());
        h
    }

    /// The ring's entries (oldest first, most-recent last).
    pub fn entries(&self) -> (r: &[String])
        ensures
            views(r@) == self@,
    {
        self.entries.as_slice()
    }

    /// The ring's entries (oldest first, most-recent last) — what the command-line window mirrors.
    pub fn entries_ref(&self) -> (r: &[String])
        ensures
            views(r@) == self@,
    {
        self.entries.as_slice()
    }

    /// Push an ACCEPTED line onto the ring. Empty lines are not stored. An identical existing
    /// entry is removed first, so a re-entered line moves to the most-recent slot. Evicts the
    /// oldest entry when over the capacity.
    pub fn push(&mut self, line: &str)
        requires
            old(self).well_formed(),
        ensures
            final(self).well_formed(),
            final(self).capacity() == old(self).capacity(),
            final(self)@ == pushed(old(self)@, line@, old(self).capacity()),
            line@.len() > 0 ==> final(self)@.last() == line@,
    {
        if line.is_empty() {
            return;
        }
        let ghost e0 = self@;
        let cap = self.cap;
        let found = position_of(self.entries.as_slice(), line);
        let ghost w0 = without(e0, line@);
        match found {
            Some(k) => {
                assert(e0.contains(line@));
                let ghost chosen = e0.index_of(line@);
                assert(e0[chosen] == line@ && e0[k as int] == line@);
                assert(chosen == k as int);
                self.entries.remove(k);
                assert(self@ =~= e0.remove(k as int));
            },
            None => {
                assert(!e0.contains(line@));
            },
        }
        assert(self@ == w0);
        self.entries.push(owned(line));
        let ghost w = w0.push(line@);
        assert(self@ =~= w);
        proof {
            assert forall|a: int, b: int| 0 <= a < w.len() && 0 <= b < w.len() && a != b implies w[a]
                != w[b] by {
                if a < w0.len() && b < w0.len() {
                    if e0.contains(line@) {
                        let c = e0.index_of(line@);
                        let ia = if a < c { a } else { a + 1 };
                        let ib = if b < c { b } else { b + 1 };
                        assert(w0[a] == e0[ia] && w0[b] == e0[ib]);
                    }
                } else if a < w0.len() {
                    if e0.contains(line@) {
                        let c = e0.index_of(line@);
                        let ia = if a < c { a } else { a + 1 };
                        assert(w0[a] == e0[ia]);
                    } else {
                        assert(w0[a] == e0[a]);
                    }
                } else if b < w0.len() {
                    if e0.contains(line@) {
                        let c = e0.index_of(line@);
                        let ib = if b < c { b } else { b + 1 };
                        assert(w0[b] == e0[ib]);
                    } else {
                        assert(w0[b] == e0[b]);
                    }
                }
            }
            assert forall|j: int| 0 <= j < w.len() implies (#[trigger] w[j]).len() > 0 by {
                if j < w0.len() {
                    if e0.contains(line@) {
                        let c = e0.index_of(line@);
                        let ij = if j < c { j } else { j + 1 };
                        assert(w0[j] == e0[ij]);
                    } else {
                        assert(w0[j] == e0[j]);
                    }
                }
            }
        }
        if self.entries.len() > cap {
            self.entries.remove(0);
            assert(self@ =~= w.skip(w.len() - cap));
        }
    }
}

impl HistWalk {
    /// The saved draft, once captured.
    pub closed spec fn draft_view(&self) -> Option<Seq<char>> {
        match self.draft {
            Some(d) => Some(d@),
            None => None,
        }
    }

    /// The index of the entry shown, or `None` while the draft is shown.
    pub closed spec fn position(&self) -> Option<usize> {
        self.pos
    }

    /// A walk that has not recalled anything yet.
    pub fn new() -> (w: HistWalk)
        ensures
            w.draft_view() is None,
            w.position() is None,
    {
        HistWalk { draft: None, pos: None }
    }

    /// The draft the walk uses when `current` is what the prompt holds.
    pub open spec fn draft_after(&self, current: Seq<char>) -> Seq<char> {
        match self.draft_view() {
            Some(d) => d,
            None => current,
        }
    }

    /// Capture `current` as the walk's draft on the FIRST recall only; later recalls keep the
    /// original draft.
    fn ensure_draft(&mut self, current: &str)
        ensures
            final(self).draft_view() == Some(old(self).draft_after(current@)),
            final(self).position() == old(self).position(),
    {
        if self.draft.is_none() {
            self.draft = Some(owned(current));
        }
    }
}

impl Default for HistWalk {
    fn default() -> (w: HistWalk)
        ensures
            w.draft_view() is None,
            w.position() is None,
    {
        HistWalk::new()
    }
}

impl CmdHistory {
    /// Whether entry `i` is eligible under `filter` with `draft` as the prefix.
    fn eligible_at(&self, i: usize, filter: bool, draft: &Option<String>) -> (r: bool)
        requires
            i < self@.len(),
            draft is Some,
        ensures
            r == eligible(self@[i as int], filter, draft->0@),
    {
        if !filter {
            return true;
        }
        match draft {
            Some(d) => str_starts_with(self.entries[i].as_str(), d.as_str()),
            None => true,
        }
    }

    /// Recall the previous (OLDER) entry. With `filter` (`<Up>`) only entries starting with the
    /// saved draft qualify; without it (`<C-p>`) the raw ring is walked. Returns the entry to show,
    /// or `None` if there is no older match (the walk stays put). The draft is captured from
    /// `current` on the first recall of the walk.
    pub fn recall_prev(&self, walk: &mut HistWalk, current: &str, filter: bool) -> (r: Option<String>)
        requires
            old(walk).position() matches Some(p) ==> p <= self@.len(),
        ensures
            final(walk).draft_view() == Some(old(walk).draft_after(current@)),
            ({
                let draft = old(walk).draft_after(current@);
                let start = match old(walk).position() {
                    Some(p) => p as int,
                    None => self@.len() as int,
                };
                match prev_match(self@, start, filter, draft) {
                    Some(j) => final(walk).position() == Some(j as usize) && (r matches Some(e) && e@
                        == self@[j]),
                    None => final(walk).position() == old(walk).position() && r is None,
                }
            }),
            final(walk).position() matches Some(p) ==> p <= self@.len(),
    {
        walk.ensure_draft(current);
        let ghost draft = old(walk).draft_after(current@);
        let start = match walk.pos {
            Some(p) => p,
            None => self.entries.len(),
        };
        proof {
            lemma_prev_match_range(self@, start as int, filter, draft);
        }
        match self.find_prev(start, filter, &walk.draft) {
            Some(j) => {
                walk.pos = Some(j);
                let e = self.entries[j].clone();
                assert(e@ == self@[j as int]);
                Some(e)
            },
            None => None,
        }
    }

    /// The greatest index below `start` whose entry is eligible.
    fn find_prev(&self, start: usize, filter: bool, draft: &Option<String>) -> (r: Option<usize>)
        requires
            start <= self@.len(),
            draft is Some,
        ensures
            r == (match prev_match(self@, start as int, filter, draft->0@) {
                Some(j) => Some(j as usize),
                None => None::<usize>,
            }),
            r matches Some(j) ==> j < start,
    {
        let mut i = start;
        while i > 0
            invariant
                i <= start <= self@.len(),
                draft is Some,
                prev_match(self@, i as int, filter, draft->0@) == prev_match(self@, start as int, filter, draft->0@),
            decreases i,
        {
            i -= 1;
            if self.eligible_at(i, filter, draft) {
                return Some(i);
            }
        }
        None
    }

    /// The least index from `i` on whose entry is eligible.
    fn find_next(&self, from: usize, filter: bool, draft: &Option<String>) -> (r: Option<usize>)
        requires
            draft is Some,
        ensures
            r == (match next_match(self@, from as int, filter, draft->0@) {
                Some(j) => Some(j as usize),
                None => None::<usize>,
            }),
            r matches Some(j) ==> from <= j < self@.len(),
    {
        let n = self.entries.len();
        let mut i = from;
        while i < n
            invariant
                from <= i,
                n == self@.len(),
                draft is Some,
                next_match(self@, i as int, filter, draft->0@) == next_match(self@, from as int, filter, draft->0@),
            decreases n - i,
        {
            if self.eligible_at(i, filter, draft) {
                return Some(i);
            }
            i += 1;
        }
        None
    }

    /// Recall the next (MORE RECENT) entry; `filter` as for [`CmdHistory::recall_prev`]. Walking
    /// past the newest match restores the saved draft. Returns the entry or draft to show, or
    /// `None` if the walk is already at the draft.
    pub fn recall_next(&self, walk: &mut HistWalk, current: &str, filter: bool) -> (r: Option<String>)
        requires
            old(walk).position() matches Some(p) ==> p <= self@.len(),
        ensures
            final(walk).draft_view() == Some(old(walk).draft_after(current@)),
            ({
                let draft = old(walk).draft_after(current@);
                match old(walk).position() {
                    None => final(walk).position() is None && r is None,
                    Some(p) => match next_match(self@, p + 1, filter, draft) {
                        Some(j) => final(walk).position() == Some(j as usize) && (r matches Some(e)
                            && e@ == self@[j]),
                        None => final(walk).position() is None && (r matches Some(e) && e@ == draft),
                    },
                }
            }),
            final(walk).position() matches Some(p) ==> p <= self@.len(),
    {
        walk.ensure_draft(current);
        let ghost draft = old(walk).draft_after(current@);
        let start = match walk.pos {
            Some(p) => p,
            None => {
                return None;
            },
        };
        let n = self.entries.len();
        if start >= n {
            walk.pos = None;
            return match &walk.draft {
                Some(d) => Some(d.clone()),
                None => Some(String::new()),
            };
        }
        proof {
            lemma_next_match_range(self@, start + 1, filter, draft);
        }
        match self.find_next(start + 1, filter, &walk.draft) {
            Some(j) => {
                walk.pos = Some(j);
                let e = self.entries[j].clone();
                assert(e@ == self@[j as int]);
                return Some(e);
            },
            None => {},
        }
        walk.pos = None;
        match &walk.draft {
            Some(d) => Some(d.clone()),
            None => Some(String::new()),
        }
    }
}

/// The index of the entry equal to `line`, if any (the first such).
fn position_of(entries: &[String], line: &str) -> (r: Option<usize>)
    ensures
        r matches Some(k) ==> k < entries@.len() && views(entries@)[k as int] == line@,
        r is None ==> !views(entries@).contains(line@),
{
    let mut i: usize = 0;
    while i < entries.len()
        invariant
            i <= entries@.len(),
            forall|j: int| 0 <= j < i ==> views(entries@)[j] != line@,
        decreases entries.len() - i,
    {
        if str_equal(entries[i].as_str(), line) {
            return Some(i);
        }
        i += 1;
    }
    None
}

/// Law: the line accepted last is the first one recalled. After pushing a non-empty `line`, a
/// walk starting from the draft recalls `line` first, unfiltered, or filtered by a draft that
/// `line` starts with.
pub proof fn law_recall_after_push(entries: Seq<Seq<char>>, line: Seq<char>, cap: nat, filter: bool, draft: Seq<char>)
    requires
        ring_ok(entries, cap),
        line.len() > 0,
        !filter || draft.is_prefix_of(line),
    ensures
        ({
            let ring = pushed(entries, line, cap);
            &&& ring.len() >= 1
            &&& prev_match(ring, ring.len() as int, filter, draft) == Some(ring.len() - 1)
            &&& ring[ring.len() - 1] == line
        }),
{
    let w = without(entries, line).push(line);
    let ring = pushed(entries, line, cap);
    if w.len() > cap {
        assert(ring == w.skip(w.len() - cap));
        assert(ring[ring.len() - 1] == w[w.len() - 1]);
    }
    assert(ring[ring.len() - 1] == line);
    assert(eligible(ring[ring.len() - 1], filter, draft));
}

proof fn lemma_prev_match_greatest(entries: Seq<Seq<char>>, start: int, filter: bool, draft: Seq<char>)
    requires
        start <= entries.len(),
    ensures
        prev_match(entries, start, filter, draft) matches Some(j) ==> forall|k: int|
            j < k < start ==> !eligible(#[trigger] entries[k], filter, draft),
    decreases start,
{
    if start > 0 && !eligible(entries[start - 1], filter, draft) {
        lemma_prev_match_greatest(entries, start - 1, filter, draft);
    }
}

proof fn lemma_next_match_none(entries: Seq<Seq<char>>, i: int, filter: bool, draft: Seq<char>)
    requires
        0 <= i,
        forall|k: int| i <= k < entries.len() ==> !eligible(#[trigger] entries[k], filter, draft),
    ensures
        next_match(entries, i, filter, draft) is None,
    decreases entries.len() - i,
{
    if i < entries.len() {
        lemma_next_match_none(entries, i + 1, filter, draft);
    }
}

/// Law: `<Down>` right after the first `<Up>` of a walk comes back to the draft: the entry `<Up>`
/// recalls is the newest eligible one, so no eligible entry follows it.
pub proof fn law_down_after_up_restores_draft(entries: Seq<Seq<char>>, filter: bool, draft: Seq<char>)
    ensures
        prev_match(entries, entries.len() as int, filter, draft) matches Some(j) ==> next_match(
            entries,
            j + 1,
            filter,
            draft,
        ) is None,
{
    lemma_prev_match_greatest(entries, entries.len() as int, filter, draft);
    lemma_prev_match_range(entries, entries.len() as int, filter, draft);
    if let Some(j) = prev_match(entries, entries.len() as int, filter, draft) {
        lemma_next_match_none(entries, j + 1, filter, draft);
    }
}

} // verus!
