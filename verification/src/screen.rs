//! The screen cell grid and its render diff. A cell holds a whole grapheme cluster; a wide
//! cluster occupies its cell and marks the next as its continuation. `diff` yields only the
//! changed runs of a frame against the previous one, never starting a run on a continuation.
use vstd::prelude::*;
use crate::text::{chars_of, str_equal};

verus! {

/// A terminal colour.
#[derive(Clone, Copy, PartialEq, Eq, Debug, Structural)]
pub enum Color {
    Reset,
    Black,
    DarkGrey,
    Red,
    DarkRed,
    Green,
    DarkGreen,
    Yellow,
    DarkYellow,
    Blue,
    DarkBlue,
    Magenta,
    DarkMagenta,
    Cyan,
    DarkCyan,
    White,
    Grey,
    Rgb { r: u8, g: u8, b: u8 },
    AnsiValue(u8),
}

/// What occupies one display cell.
#[derive(Clone, PartialEq, Eq, Debug)]
pub enum Content {
    /// A blank cell.
    Blank,
    /// The right half of the wide cluster in the cell to the left.
    Continuation,
    /// A grapheme cluster, printed as it is.
    Cluster(String),
}

/// The view of a `Content`.
pub enum ContentV {
    Blank,
    Continuation,
    Cluster(Seq<char>),
}

impl View for Content {
    type V = ContentV;

    open spec fn view(&self) -> ContentV {
        match self {
            Content::Blank => ContentV::Blank,
            Content::Continuation => ContentV::Continuation,
            Content::Cluster(s) => ContentV::Cluster(s@),
        }
    }
}

/// One display cell: its content and how to draw it.
#[derive(Clone, PartialEq, Eq, Debug)]
pub struct Cell {
    pub content: Content,
    pub fg: Color,
    pub reverse: bool,
}

/// The view of a `Cell`.
pub struct CellV {
    pub content: ContentV,
    pub fg: Color,
    pub reverse: bool,
}

impl View for Cell {
    type V = CellV;

    open spec fn view(&self) -> CellV {
        CellV { content: self.content@, fg: self.fg, reverse: self.reverse }
    }
}

/// A blank cell in the default colour.
pub open spec fn blank_cell() -> CellV {
    CellV { content: ContentV::Blank, fg: Color::Reset, reverse: false }
}

impl Cell {
    /// A blank cell in the default colour.
    pub fn blank() -> (c: Cell)
        ensures
            c@ == blank_cell(),
    {
        Cell { content: Content::Blank, fg: Color::Reset, reverse: false }
    }

    /// A copy of the cell.
    pub fn copy(&self) -> (c: Cell)
        ensures
            c@ == self@,
    {
        let content = match &self.content {
            Content::Blank => Content::Blank,
            Content::Continuation => Content::Continuation,
            Content::Cluster(s) => Content::Cluster(crate::text::owned(s.as_str())),
        };
        Cell { content, fg: self.fg, reverse: self.reverse }
    }

    /// Whether two cells look the same.
    pub fn same(&self, other: &Cell) -> (r: bool)
        ensures
            r == (self@ == other@),
    {
        let content_same = match (&self.content, &other.content) {
            (Content::Blank, Content::Blank) => true,
            (Content::Continuation, Content::Continuation) => true,
            (Content::Cluster(a), Content::Cluster(b)) => str_equal(a.as_str(), b.as_str()),
            _ => false,
        };
        content_same && self.fg == other.fg && self.reverse == other.reverse
    }
}

/// The display width that the `unicode-width` tables give a character (`None` for a control
/// character).
pub uninterp spec fn unicode_char_width(c: char) -> Option<usize>;

/// `UnicodeWidthChar::width`: the width the tables give `c`. Printable ASCII is one column and
/// the C0 and C1 controls and DEL have none; no width exceeds three, and only U+17D8 has three.
/// Nothing else about the tables is stated here.
#[verifier::external_body]
fn char_width(c: char) -> (r: Option<usize>)
    ensures
        r == unicode_char_width(c),
        0x20 <= (c as u32) < 0x7f ==> r == Some(1usize),
        ((c as u32) < 0x20 || (0x7f <= (c as u32) && (c as u32) < 0xa0)) ==> r is None,
        r matches Some(w) ==> w <= 2 || (w == 3 && c == '\u{17D8}'),
{
    unicode_width::UnicodeWidthChar::width(c)
}

/// The width of a grapheme cluster: that of its first character, at least one column; nothing
/// for the empty cluster.
pub open spec fn cluster_width_of(g: Seq<char>) -> u16 {
    if g.len() == 0 {
        0
    } else {
        let w: u16 = match unicode_char_width(g[0]) {
            Some(w) => w as u16,
            None => 0,
        };
        if w == 0 { 1 } else { w }
    }
}

/// The display width, in columns, of the grapheme cluster `g` (see `cluster_width_of`).
pub fn cluster_width(g: &str) -> (w: u16)
    ensures
        w == cluster_width_of(g@),
        w <= 3,
        w == 3 ==> g@[0] == '\u{17D8}',
{
    let cs = chars_of(g);
    if cs.len() == 0 {
        return 0;
    }
    let w: u16 = match char_width(cs[0]) {
        Some(w) => w as u16,
        None => 0,
    };
    if w == 0 { 1 } else { w }
}

/// The grapheme clusters of a text, as the `unicode-segmentation` rules split it.
pub uninterp spec fn grapheme_clusters(s: Seq<char>) -> Seq<Seq<char>>;

/// `UnicodeSegmentation::graphemes` (extended clusters): the clusters of `s` in order, each
/// non-empty, which together spell `s`. Where the boundaries fall is not stated here.
#[verifier::external_body]
fn graphemes_of(s: &str) -> (r: Vec<String>)
    ensures
        r@.map_values(|g: String| g@) == grapheme_clusters(s@),
        r@.map_values(|g: String| g@).flatten() == s@,
        forall|i: int| 0 <= i < r@.len() ==> #[trigger] r@[i]@.len() > 0,
{
    unicode_segmentation::UnicodeSegmentation::graphemes(s, true).map(|g| g.to_string()).collect()
}

/// A `cols` by `rows` grid of cells, row by row.
pub struct Screen {
    cols: u16,
    rows: u16,
    cells: Vec<Cell>,
}

/// The view of a screen: its size and its cells, row by row.
pub struct ScreenV {
    pub cols: u16,
    pub rows: u16,
    pub cells: Seq<CellV>,
}

impl View for Screen {
    type V = ScreenV;

    closed spec fn view(&self) -> ScreenV {
        ScreenV { cols: self.cols, rows: self.rows, cells: self.cells@.map_values(|c: Cell| c@) }
    }
}

/// The index of `(row, col)` in a screen's cells, when it is on the screen.
pub open spec fn index_of(s: ScreenV, row: u16, col: u16) -> Option<int> {
    if row < s.rows && col < s.cols { Some(row * s.cols + col) } else { None }
}

/// The cell at `(row, col)`, blank off the screen.
pub open spec fn cell_at(s: ScreenV, row: u16, col: u16) -> CellV {
    match index_of(s, row, col) {
        Some(i) => s.cells[i],
        None => blank_cell(),
    }
}

/// A well-formed screen view: one cell per position.
pub open spec fn screen_ok(s: ScreenV) -> bool {
    s.cells.len() == s.cols * s.rows
}

proof fn lemma_index_in_range(s: ScreenV, row: u16, col: u16)
    requires
        screen_ok(s),
        row < s.rows,
        col < s.cols,
    ensures
        0 <= row * s.cols + col < s.cells.len(),
{
    assert(row * s.cols + col < s.cols * s.rows) by (nonlinear_arith)
        requires
            row < s.rows,
            col < s.cols,
    ;
    assert(0 <= row * s.cols) by (nonlinear_arith);
}

impl Screen {
    /// The well-formedness of a screen.
    pub closed spec fn well_formed(&self) -> bool {
        self.cells@.len() == self.cols * self.rows
    }

    /// The view of a screen is well formed exactly when the screen is.
    pub proof fn lemma_view_ok(&self)
        ensures
            self.well_formed() <==> screen_ok(self@),
    {
    }

    /// A blank screen of `cols` by `rows`.
    pub fn new(cols: u16, rows: u16) -> (s: Screen)
        ensures
            s.well_formed(),
            s@.cols == cols,
            s@.rows == rows,
            forall|i: int| 0 <= i < s@.cells.len() ==> #[trigger] s@.cells[i] == blank_cell(),
    {
        assert((cols as int) * (rows as int) <= 0xffff * 0xffff) by (nonlinear_arith)
            requires
                cols <= 0xffff,
                rows <= 0xffff,
        ;
        let n: usize = (cols as usize) * (rows as usize);
        let mut cells: Vec<Cell> = Vec::new();
        let mut k: usize = 0;
        while k < n
            invariant
                k <= n,
                cells@.len() == k,
                forall|i: int| 0 <= i < k ==> #[trigger] cells@[i]@ == blank_cell(),
            decreases n - k,
        {
            cells.push(Cell::blank());
            k += 1;
        }
        let s = Screen { cols, rows, cells };
        assert forall|i: int| 0 <= i < s@.cells.len() implies #[trigger] s@.cells[i] == blank_cell() by {
            assert(s@.cells[i] == s.cells@[i]@);
        }
        s
    }

    /// The cell at `(row, col)`, a blank one off the screen.
    pub fn cell(&self, row: u16, col: u16) -> (c: Cell)
        requires
            self.well_formed(),
        ensures
            c@ == cell_at(self@, row, col),
    {
        if row < self.rows && col < self.cols {
            proof {
                lemma_index_in_range(self@, row, col);
                assert((row as int) * (self.cols as int) + (col as int) <= 0xffff * 0xffff) by (nonlinear_arith)
                    requires
                        row < 0xffff,
                        col < self.cols <= 0xffff,
                ;
            }
            let i = (row as usize) * (self.cols as usize) + (col as usize);
            assert(self@.cells[i as int] == self.cells@[i as int]@);
            self.cells[i].copy()
        } else {
            Cell::blank()
        }
    }
}

/// The screen after placing cluster `g` at `(row, col)`, and the column after it: an empty
/// cluster changes nothing; off the screen only the column advances (saturating); a wide cluster
/// with no room for its right half leaves a blank and ends the row; otherwise the cluster fills
/// its cell, and a wide one marks the next cell as its continuation.
pub open spec fn put_of(s: ScreenV, row: u16, col: u16, g: Seq<char>, fg: Color, reverse: bool) -> (ScreenV, u16) {
    let w = cluster_width_of(g);
    if w == 0 {
        (s, col)
    } else {
        match index_of(s, row, col) {
            None => (s, if col + w > u16::MAX { u16::MAX } else { (col + w) as u16 }),
            Some(i) => if w == 2 && col + 1 >= s.cols {
                (
                    ScreenV { cells: s.cells.update(i, CellV { content: ContentV::Blank, fg, reverse }), ..s },
                    s.cols,
                )
            } else {
                let c1 = s.cells.update(i, CellV { content: ContentV::Cluster(g), fg, reverse });
                let c2 = if w == 2 {
                    c1.update(i + 1, CellV { content: ContentV::Continuation, fg, reverse })
                } else {
                    c1
                };
                (ScreenV { cells: c2, ..s }, (col + w) as u16)
            },
        }
    }
}

/// Placing a cluster can overflow the column only for U+17D8 (three columns wide) at one of the
/// last three columns of a very wide screen.
pub open spec fn put_fits(s: ScreenV, row: u16, col: u16, g: Seq<char>) -> bool {
    (g.len() > 0 && g[0] == '\u{17D8}' && row < s.rows && col < s.cols) ==> col <= 65532
}

/// The screen after placing clusters `gs` from `(row, col)` on, stopping at the right edge,
/// and the column reached.
pub open spec fn put_all_of(s: ScreenV, row: u16, col: u16, gs: Seq<Seq<char>>, fg: Color, reverse: bool) -> (ScreenV, u16)
    decreases gs.len(),
{
    if gs.len() == 0 || col >= s.cols {
        (s, col)
    } else {
        let (s1, c1) = put_of(s, row, col, gs[0], fg, reverse);
        put_all_of(s1, row, c1, gs.drop_first(), fg, reverse)
    }
}

proof fn lemma_flatten_first(gs: Seq<Seq<char>>, i: int)
    requires
        0 <= i < gs.len(),
        gs[i].len() > 0,
    ensures
        gs.flatten().contains(gs[i][0]),
    decreases i,
{
    if i == 0 {
        assert(gs.flatten() == gs[0] + gs.drop_first().flatten());
        assert(gs.flatten()[0] == gs[0][0]);
    } else {
        lemma_flatten_first(gs.drop_first(), i - 1);
        assert(gs.flatten() == gs[0] + gs.drop_first().flatten());
        let k = choose|k: int| 0 <= k < gs.drop_first().flatten().len() && gs.drop_first().flatten()[k] == gs[i][0];
        assert(gs.flatten()[gs[0].len() + k] == gs[i][0]);
    }
}

impl Screen {
    /// Places grapheme cluster `g` at `(row, col)` and returns the column after it (see `put_of`).
    pub fn put(&mut self, row: u16, col: u16, g: &str, fg: Color, reverse: bool) -> (next: u16)
        requires
            old(self).well_formed(),
            put_fits(old(self)@, row, col, g@),
        ensures
            final(self).well_formed(),
            (final(self)@, next) == put_of(old(self)@, row, col, g@, fg, reverse),
    {
        let w = cluster_width(g);
        if w == 0 {
            return col;
        }
        if !(row < self.rows && col < self.cols) {
            return col.saturating_add(w);
        }
        proof {
            lemma_index_in_range(self@, row, col);
            assert((row as int) * (self.cols as int) + (col as int) <= 0xffff * 0xffff) by (nonlinear_arith)
                requires
                    row < 0xffff,
                    col < self.cols <= 0xffff,
            ;
        }
        let i = (row as usize) * (self.cols as usize) + (col as usize);
        let ghost old_cells = self@.cells;
        if w == 2 && col + 1 >= self.cols {
            self.cells.set(i, Cell { content: Content::Blank, fg, reverse });
            proof {
                assert(self@.cells =~= old_cells.update(i as int, CellV { content: ContentV::Blank, fg, reverse }));
            }
            return self.cols;
        }
        self.cells.set(i, Cell { content: Content::Cluster(crate::text::owned(g)), fg, reverse });
        proof {
            assert(self@.cells =~= old_cells.update(i as int, CellV { content: ContentV::Cluster(g@), fg, reverse }));
        }
        if w == 2 {
            proof {
                lemma_index_in_range(self@, row, (col + 1) as u16);
            }
            let ghost c1 = self@.cells;
            self.cells.set(i + 1, Cell { content: Content::Continuation, fg, reverse });
            proof {
                assert(self@.cells =~= c1.update(i + 1, CellV { content: ContentV::Continuation, fg, reverse }));
            }
        }
        col + w
    }

    /// Paints `s` from `(row, col)`, one grapheme cluster at a time, stopping at the right edge;
    /// returns the column reached.
    pub fn put_str(&mut self, row: u16, start: u16, s: &str, fg: Color, reverse: bool) -> (next: u16)
        requires
            old(self).well_formed(),
            old(self)@.cols <= 65533 || !s@.contains('\u{17D8}'),
        ensures
            final(self).well_formed(),
            (final(self)@, next) == put_all_of(old(self)@, row, start, grapheme_clusters(s@), fg, reverse),
    {
        let gs = graphemes_of(s);
        let ghost gv = gs@.map_values(|g: String| g@);
        let mut col = start;
        let mut k: usize = 0;
        assert(gv.skip(0) =~= gv);
        while k < gs.len()
            invariant
                k <= gs@.len(),
                gv == gs@.map_values(|g: String| g@),
                gv == grapheme_clusters(s@),
                gv.flatten() == s@,
                forall|i: int| 0 <= i < gs@.len() ==> #[trigger] gs@[i]@.len() > 0,
                self.well_formed(),
                self@.cols == old(self)@.cols,
                self@.rows == old(self)@.rows,
                old(self)@.cols <= 65533 || !s@.contains('\u{17D8}'),
                put_all_of(self@, row, col, gv.skip(k as int), fg, reverse) == put_all_of(
                    old(self)@,
                    row,
                    start,
                    gv,
                    fg,
                    reverse,
                ),
            decreases gs.len() - k,
        {
            assert(gv.skip(k as int).drop_first() =~= gv.skip(k + 1));
            if col >= self.cols {
                assert(put_all_of(self@, row, col, gv.skip(k as int), fg, reverse) == (self@, col));
                return col;
            }
            proof {
                assert(gv[k as int] == gs@[k as int]@);
                if !(old(self)@.cols <= 65533) {
                    lemma_flatten_first(gv, k as int);
                }
            }
            col = self.put(row, col, gs[k].as_str(), fg, reverse);
            k += 1;
        }
        assert(gv.skip(k as int) =~= Seq::<Seq<char>>::empty());
        col
    }
}

/// Whether `(row, col)` needs no repaint: the screens have one size and the cells look the same.
pub open spec fn unchanged(a: ScreenV, b: ScreenV, row: u16, col: int) -> bool {
    a.cols == b.cols && a.rows == b.rows && cell_at(a, row, col as u16) == cell_at(b, row, col as u16)
}

/// The end of the changed run that goes on at `e`: the first column from `e` on that needs no
/// repaint (or the width).
pub open spec fn run_end(a: ScreenV, b: ScreenV, row: u16, e: int) -> int
    decreases a.cols - e,
{
    if 0 <= e < a.cols && !unchanged(a, b, row, e) {
        run_end(a, b, row, e + 1)
    } else {
        e
    }
}

proof fn lemma_run_end(a: ScreenV, b: ScreenV, row: u16, e: int)
    requires
        0 <= e <= a.cols,
    ensures
        e <= run_end(a, b, row, e) <= a.cols,
    decreases a.cols - e,
{
    if e < a.cols && !unchanged(a, b, row, e) {
        lemma_run_end(a, b, row, e + 1);
    }
}

/// The cells of `row` from column `from` up to `to`.
pub open spec fn row_cells(a: ScreenV, row: u16, from: int, to: int) -> Seq<CellV> {
    Seq::new((to - from) as nat, |k: int| cell_at(a, row, (from + k) as u16))
}

/// The changed runs of `row` from column `col` on: each run of cells needing a repaint, as
/// `(row, start, cells)`, widened one column to the left when it would start on the right half of
/// a wide cluster.
pub open spec fn diff_row_from(a: ScreenV, b: ScreenV, row: u16, col: int) -> Seq<(u16, u16, Seq<CellV>)>
    decreases a.cols - col,
{
    if col < 0 || col >= a.cols {
        seq![]
    } else if unchanged(a, b, row, col) {
        diff_row_from(a, b, row, col + 1)
    } else {
        let start = if col > 0 && cell_at(a, row, col as u16).content is Continuation { col - 1 } else { col };
        let e = run_end(a, b, row, col + 1);
        let end = if col < e && e <= a.cols { e } else { col + 1 };
        seq![(row, start as u16, row_cells(a, row, start, end))] + diff_row_from(a, b, row, end)
    }
}

/// The changed runs of the first `r` rows, row by row.
pub open spec fn diff_rows(a: ScreenV, b: ScreenV, r: int) -> Seq<(u16, u16, Seq<CellV>)>
    decreases r,
{
    if r <= 0 {
        seq![]
    } else {
        diff_rows(a, b, r - 1) + diff_row_from(a, b, (r - 1) as u16, 0)
    }
}

/// The runs to repaint to turn screen `b` into screen `a`: every cell when the sizes differ.
pub open spec fn diff_of(a: ScreenV, b: ScreenV) -> Seq<(u16, u16, Seq<CellV>)> {
    diff_rows(a, b, a.rows as int)
}

/// The view of a run.
pub open spec fn run_view(r: (u16, u16, Vec<Cell>)) -> (u16, u16, Seq<CellV>) {
    (r.0, r.1, r.2@.map_values(|c: Cell| c@))
}

impl Screen {
    /// Whether `(row, col)` of `self` needs no repaint against `prev`.
    fn unchanged_at(&self, prev: &Screen, row: u16, col: u16) -> (r: bool)
        requires
            self.well_formed(),
            prev.well_formed(),
        ensures
            r == unchanged(self@, prev@, row, col as int),
    {
        if self.cols != prev.cols || self.rows != prev.rows {
            return false;
        }
        let a = self.cell(row, col);
        let b = prev.cell(row, col);
        a.same(&b)
    }

    /// The changed runs of `self` against `prev`, the minimal set to repaint (see `diff_of`).
    pub fn diff(&self, prev: &Screen) -> (out: Vec<(u16, u16, Vec<Cell>)>)
        requires
            self.well_formed(),
            prev.well_formed(),
        ensures
            out@.map_values(|r: (u16, u16, Vec<Cell>)| run_view(r)) == diff_of(self@, prev@),
    {
        let mut out: Vec<(u16, u16, Vec<Cell>)> = Vec::new();
        let mut row: u16 = 0;
        while row < self.rows
            invariant
                self.well_formed(),
                prev.well_formed(),
                row <= self@.rows,
                out@.map_values(|r: (u16, u16, Vec<Cell>)| run_view(r)) == diff_rows(self@, prev@, row as int),
            decreases self@.rows - row,
        {
            let ghost before = out@.map_values(|r: (u16, u16, Vec<Cell>)| run_view(r));
            let mut col: u16 = 0;
            while col < self.cols
                invariant
                    self.well_formed(),
                    prev.well_formed(),
                    row < self@.rows,
                    col <= self@.cols,
                    out@.map_values(|r: (u16, u16, Vec<Cell>)| run_view(r)) + diff_row_from(self@, prev@, row, col as int)
                        == before + diff_row_from(self@, prev@, row, 0),
                decreases self@.cols - col,
            {
                if self.unchanged_at(prev, row, col) {
                    col += 1;
                    continue;
                }
                let mut start = col;
                let c = self.cell(row, start);
                let is_cont = match c.content {
                    Content::Continuation => true,
                    _ => false,
                };
                if start > 0 && is_cont {
                    start -= 1;
                }
                proof {
                    lemma_run_end(self@, prev@, row, col + 1);
                }
                let mut end = col + 1;
                while end < self.cols && !self.unchanged_at(prev, row, end)
                    invariant
                        self.well_formed(),
                        prev.well_formed(),
                        col < end <= self@.cols,
                        run_end(self@, prev@, row, end as int) == run_end(self@, prev@, row, col + 1),
                    decreases self@.cols - end,
                {
                    end += 1;
                }
                let mut run: Vec<Cell> = Vec::new();
                let mut k = start;
                while k < end
                    invariant
                        self.well_formed(),
                        start <= k <= end <= self@.cols,
                        run@.map_values(|c: Cell| c@) == row_cells(self@, row, start as int, k as int),
                    decreases end - k,
                {
                    let ghost r0 = run@.map_values(|c: Cell| c@);
                    let ck = self.cell(row, k);
                    run.push(ck);
                    assert(run@.map_values(|c: Cell| c@) =~= r0.push(ck@));
                    assert(row_cells(self@, row, start as int, k + 1) =~= row_cells(self@, row, start as int, k as int).push(
                        cell_at(self@, row, k),
                    ));
                    k += 1;
                }
                let ghost o0 = out@;
                out.push((row, start, run));
                assert(out@.map_values(|r: (u16, u16, Vec<Cell>)| run_view(r)) =~= o0.map_values(
                    |r: (u16, u16, Vec<Cell>)| run_view(r),
                ).push(run_view((row, start, run))));
                col = end;
            }
            assert(diff_rows(self@, prev@, row + 1) == before + diff_row_from(self@, prev@, row, 0));
            assert(diff_row_from(self@, prev@, row, col as int) =~= Seq::<(u16, u16, Seq<CellV>)>::empty());
            assert(out@.map_values(|r: (u16, u16, Vec<Cell>)| run_view(r)) =~= diff_rows(self@, prev@, row + 1));
            row += 1;
        }
        out
    }
}

/// The cell that the last of `runs` covering `(row, col)` paints there, if any covers it.
pub open spec fn paint_at(runs: Seq<(u16, u16, Seq<CellV>)>, row: u16, col: int) -> Option<CellV>
    decreases runs.len(),
{
    if runs.len() == 0 {
        None
    } else {
        let r = runs.last();
        if r.0 == row && r.1 <= col < r.1 + r.2.len() {
            Some(r.2[col - r.1])
        } else {
            paint_at(runs.drop_last(), row, col)
        }
    }
}

/// A run that paints cells of screen `a`, each where it belongs.
pub open spec fn faithful(a: ScreenV, r: (u16, u16, Seq<CellV>)) -> bool {
    &&& r.1 + r.2.len() <= a.cols
    &&& forall|k: int| 0 <= k < r.2.len() ==> #[trigger] r.2[k] == cell_at(a, r.0, (r.1 + k) as u16)
}

proof fn lemma_paint_concat(x: Seq<(u16, u16, Seq<CellV>)>, y: Seq<(u16, u16, Seq<CellV>)>, row: u16, col: int)
    ensures
        paint_at(x + y, row, col) == (if paint_at(y, row, col) is Some {
            paint_at(y, row, col)
        } else {
            paint_at(x, row, col)
        }),
    decreases y.len(),
{
    if y.len() == 0 {
        assert(x + y =~= x);
    } else {
        assert((x + y).drop_last() =~= x + y.drop_last());
        assert((x + y).last() == y.last());
        lemma_paint_concat(x, y.drop_last(), row, col);
    }
}

proof fn lemma_paint_faithful(a: ScreenV, runs: Seq<(u16, u16, Seq<CellV>)>, row: u16, col: int)
    requires
        0 <= col,
        forall|i: int| 0 <= i < runs.len() ==> faithful(a, #[trigger] runs[i]),
    ensures
        paint_at(runs, row, col) matches Some(c) ==> c == cell_at(a, row, col as u16),
    decreases runs.len(),
{
    if runs.len() > 0 {
        let r = runs.last();
        assert(faithful(a, runs[runs.len() - 1]));
        if r.0 == row && r.1 <= col < r.1 + r.2.len() {
            assert(r.2[col - r.1] == cell_at(a, r.0, (r.1 + (col - r.1)) as u16));
        } else {
            assert forall|i: int| 0 <= i < runs.drop_last().len() implies faithful(a, #[trigger] runs.drop_last()[i]) by {
                assert(runs.drop_last()[i] == runs[i]);
            }
            lemma_paint_faithful(a, runs.drop_last(), row, col);
        }
    }
}

/// The runs of a row from `c0` on paint cells of `a`, and they cover every column from `c0` on
/// that needs a repaint.
proof fn lemma_row_runs(a: ScreenV, b: ScreenV, row: u16, c0: int, col: int)
    requires
        0 <= c0,
    ensures
        forall|i: int|
            0 <= i < diff_row_from(a, b, row, c0).len() ==> faithful(a, #[trigger] diff_row_from(a, b, row, c0)[i]),
        c0 <= col < a.cols && !unchanged(a, b, row, col) ==> paint_at(diff_row_from(a, b, row, c0), row, col) is Some,
    decreases a.cols - c0,
{
    let runs = diff_row_from(a, b, row, c0);
    if c0 < a.cols {
        if unchanged(a, b, row, c0) {
            lemma_row_runs(a, b, row, c0 + 1, col);
        } else {
            let start = if c0 > 0 && cell_at(a, row, c0 as u16).content is Continuation { c0 - 1 } else { c0 };
            lemma_run_end(a, b, row, c0 + 1);
            let e = run_end(a, b, row, c0 + 1);
            let end = if c0 < e && e <= a.cols { e } else { c0 + 1 };
            let first = (row, start as u16, row_cells(a, row, start, end));
            let rest = diff_row_from(a, b, row, end);
            assert(runs == seq![first] + rest);
            lemma_row_runs(a, b, row, end, col);
            assert(faithful(a, first));
            assert forall|i: int| 0 <= i < runs.len() implies faithful(a, #[trigger] runs[i]) by {
                if i > 0 {
                    assert(runs[i] == rest[i - 1]);
                }
            }
            if c0 <= col < a.cols && !unchanged(a, b, row, col) {
                lemma_paint_concat(seq![first], rest, row, col);
                if col < end {
                    assert(seq![first].drop_last() =~= Seq::<(u16, u16, Seq<CellV>)>::empty());
                    assert(paint_at(seq![first], row, col) is Some);
                } else {
                    // A column past the run: `end` is unchanged or the width, so `col` lies beyond it.
                    if col == end {
                        assert(e == run_end(a, b, row, c0 + 1));
                    }
                }
            }
        }
    }
}

/// The runs of the first `r` rows paint cells of `a` and cover every position of those rows that
/// needs a repaint.
proof fn lemma_rows_runs(a: ScreenV, b: ScreenV, r: int, row: u16, col: int)
    ensures
        forall|i: int| 0 <= i < diff_rows(a, b, r).len() ==> faithful(a, #[trigger] diff_rows(a, b, r)[i]),
        row < r && 0 <= col < a.cols && !unchanged(a, b, row, col) ==> paint_at(diff_rows(a, b, r), row, col) is Some,
    decreases r,
{
    if r > 0 {
        let x = diff_rows(a, b, r - 1);
        let y = diff_row_from(a, b, (r - 1) as u16, 0);
        lemma_rows_runs(a, b, r - 1, row, col);
        lemma_row_runs(a, b, (r - 1) as u16, 0, col);
        assert(diff_rows(a, b, r) == x + y);
        assert forall|i: int| 0 <= i < (x + y).len() implies faithful(a, #[trigger] (x + y)[i]) by {
            if i < x.len() {
                assert((x + y)[i] == x[i]);
            } else {
                assert((x + y)[i] == y[i - x.len()]);
            }
        }
        lemma_paint_concat(x, y, row, col);
    }
}

/// Law: painting the runs of `diff` over the terminal that shows `prev` makes it show the new
/// screen: every painted cell is the new screen's, and a cell no run paints was already the same
/// on both screens, which therefore have one size.
pub proof fn law_diff_repaints(a: ScreenV, b: ScreenV, row: u16, col: u16)
    requires
        row < a.rows,
        col < a.cols,
    ensures
        match paint_at(diff_of(a, b), row, col as int) {
            Some(c) => c == cell_at(a, row, col),
            None => a.cols == b.cols && a.rows == b.rows && cell_at(b, row, col) == cell_at(a, row, col),
        },
{
    lemma_rows_runs(a, b, a.rows as int, row, col as int);
    lemma_paint_faithful(a, diff_of(a, b), row, col as int);
}

} // verus!
