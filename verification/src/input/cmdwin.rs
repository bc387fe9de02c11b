//! The command-line window (`q:`, `q/`, `q?`): a navigable list of a history ring with Vim's
//! trailing empty line, the cursor starting on it. `<CR>` on a line runs that line's text through
//! the same ex/search dispatch the prompt uses; `<Esc>` closes without running. The `kind` glyph
//! doubles as the dispatch selector: `:` runs an ex line, `/`/`?` run a search.
use vstd::prelude::*;
use crate::input::history::{lemma_views, views};

verus! {

/// How many list rows the overlay shows at once.
pub const VIEW: usize = 10;

/// The command-line window overlay: which ring it mirrors (`kind`), the ring's entries plus Vim's
/// trailing empty line (oldest first), and the selected line.
pub struct CmdWin {
    /// `:` (ex ring), `/` (forward search) or `?` (backward search).
    kind: char,
    lines: Vec<String>,
    selected: usize,
}

/// The first visible row for `len` lines with `sel` selected: the selection stays the last
/// visible row when scrolled down, clamped to a full window.
pub open spec fn view_start(len: int, sel: int) -> int {
    if len <= VIEW {
        0
    } else {
        let s = if sel >= VIEW - 1 { sel - (VIEW - 1) } else { 0 };
        if s <= len - VIEW { s } else { len - VIEW }
    }
}

/// One past the last visible row.
pub open spec fn view_end(len: int, sel: int) -> int {
    let e = view_start(len, sel) + VIEW;
    if e <= len { e } else { len }
}

impl CmdWin {
    /// The lines listed: the ring's entries then one empty line.
    pub closed spec fn lines_view(&self) -> Seq<Seq<char>> {
        views(self.lines@)
    }

    /// The ring this window mirrors.
    pub closed spec fn kind_view(&self) -> char {
        self.kind
    }

    /// The index of the selected line.
    pub closed spec fn selected_index(&self) -> int {
        self.selected as int
    }

    /// At least one line, and the selection is one of them.
    pub open spec fn well_formed(&self) -> bool {
        &&& self.lines_view().len() >= 1
        &&& 0 <= self.selected_index() < self.lines_view().len()
    }

    /// Open a window of `kind` over `entries` (oldest first). Appends Vim's trailing empty line
    /// and puts the cursor on it.
    pub fn open(kind: char, entries: &[String]) -> (w: CmdWin)
        requires
            entries@.len() < usize::MAX,
        ensures
            w.well_formed(),
            w.kind_view() == kind,
            w.lines_view() == views(entries@).push(Seq::<char>::empty()),
            w.selected_index() == entries@.len(),
    {
        let mut lines: Vec<String> = Vec::new();
        let mut i: usize = 0;
        while i < entries.len()
            invariant
                i <= entries@.len(),
                lines@.len() == i,
                forall|j: int| 0 <= j < i ==> (#[trigger] lines@[j])@ == entries@[j]@,
            decreases entries.len() - i,
        {
            let c = entries[i].clone();
            assert(c@ == entries@[i as int]@);
            lines.push(c);
            i += 1;
        }
        let ghost before = lines@;
        let blank = String::new();
        lines.push(blank);
        assert(lines@ == before.push(blank));
        proof {
            lemma_views(lines@);
            lemma_views(entries@);
        }
        assert(views(lines@) =~= views(entries@).push(Seq::<char>::empty()));
        let selected = lines.len() - 1;
        CmdWin { kind, lines, selected }
    }

    /// Move the selection one line toward the oldest entry, bounded at the top.
    pub fn up(&mut self)
        requires
            old(self).well_formed(),
        ensures
            final(self).well_formed(),
            final(self).kind_view() == old(self).kind_view(),
            final(self).lines_view() == old(self).lines_view(),
            final(self).selected_index() == if old(self).selected_index() > 0 {
                old(self).selected_index() - 1
            } else {
                0
            },
    {
        self.selected = self.selected.saturating_sub(1);
    }

    /// Move the selection one line toward the empty last line, bounded at the bottom.
    pub fn down(&mut self)
        requires
            old(self).well_formed(),
        ensures
            final(self).well_formed(),
            final(self).kind_view() == old(self).kind_view(),
            final(self).lines_view() == old(self).lines_view(),
            final(self).selected_index() == if old(self).selected_index() + 1 < old(
                self,
            ).lines_view().len() {
                old(self).selected_index() + 1
            } else {
                old(self).selected_index()
            },
    {
        if self.selected < self.lines.len() - 1 {
            self.selected += 1;
        }
    }

    /// The ring this window mirrors, as its glyph.
    pub fn glyph(&self) -> (r: char)
        ensures
            r == self.kind_view(),
    {
        self.kind
    }

    /// The selected line's text (empty for the trailing blank line).
    pub fn selected_line(&self) -> (r: &str)
        requires
            self.well_formed(),
        ensures
            r@ == self.lines_view()[self.selected_index()],
    {
        self.lines[self.selected].as_str()
    }

    /// The visible rows `(text, is_selected)`, scrolled to keep the selection in view within
    /// [`VIEW`] rows.
    pub fn rows(&self) -> (r: Vec<(String, bool)>)
        requires
            self.well_formed(),
        ensures
            ({
                let len = self.lines_view().len() as int;
                let sel = self.selected_index();
                let start = view_start(len, sel);
                &&& r@.len() == view_end(len, sel) - start
                &&& forall|k: int|
                    0 <= k < r@.len() ==> (#[trigger] r@[k]).0@ == self.lines_view()[start + k] && r@[k].1
                        == (start + k == sel)
            }),
    {
        let len = self.lines.len();
        let start = if len <= VIEW {
            0
        } else {
            let s = self.selected.saturating_sub(VIEW - 1);
            if s <= len - VIEW { s } else { len - VIEW }
        };
        let end = if start + VIEW <= len { start + VIEW } else { len };
        let mut out: Vec<(String, bool)> = Vec::new();
        let mut k = start;
        while k < end
            invariant
                start <= k <= end <= len,
                len == self.lines@.len(),
                out@.len() == k - start,
                forall|j: int|
                    0 <= j < out@.len() ==> (#[trigger] out@[j]).0@ == views(self.lines@)[start + j]
                        && out@[j].1 == (start + j == self.selected),
            decreases end - k,
        {
            out.push((self.lines[k].clone(), k == self.selected));
            k += 1;
        }
        out
    }
}

} // verus!
