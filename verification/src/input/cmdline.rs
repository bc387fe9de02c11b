//! The command-line namespace: the `:` ex line, the `/` and `?` search lines, the `M-x`
//! minibuffer and the expression prompt. The line buffer, its recall walk, the two history rings
//! (`:` lines and searches, kept apart) and the last search live here; the frontend only renders
//! the line. A key on the line edits it, recalls history, or completes it into an outcome.
use vstd::prelude::*;
use crate::input::cmdwin::CmdWin;
use crate::input::emacs::{emacs_command_by_name, emacs_command_of, EmacsCommand};
use crate::input::history::{law_recall_after_push, next_match, prev_match, ring_ok, CmdHistory, HistWalk};
use crate::keys::{has_ctrl, KeyCode, KeyEvent, KeyModifiers};
use crate::text::{chars_of, owned, push_char, str_equal, string_of};

verus! {

/// What a completed expression prompt does with the evaluated result.
#[derive(Clone, Copy, PartialEq, Eq, Debug, Structural)]
pub enum ExprTarget {
    /// Normal-mode `"=`: arm the `=` register for the next paste.
    Paste,
    /// Insert-mode `<C-r>=`: insert the result at the caret.
    Insert,
}

/// The open line.
pub struct CmdLine {
    /// `:` (ex), `/` or `?` (search), `=` (expression); also the glyph shown.
    prefix: char,
    /// The text typed so far.
    buffer: String,
    /// The insertion point, as a character index.
    cursor: usize,
    /// `gQ` Ex mode: `<CR>` runs the line and prompts again.
    ex_mode: bool,
    /// The `M-x` minibuffer: the line holds a command name.
    mx: bool,
    /// The expression prompt: the line holds an expression for this target.
    expr: Option<ExprTarget>,
    /// The history recall walk of this line.
    walk: HistWalk,
}

/// The view of an open line.
pub struct LineV {
    pub prefix: char,
    pub buffer: Seq<char>,
    pub cursor: usize,
    pub ex_mode: bool,
    pub mx: bool,
    pub expr: Option<ExprTarget>,
    /// The draft the recall walk returns to, once captured.
    pub draft: Option<Seq<char>>,
    /// The history entry the walk shows, or none for the draft.
    pub pos: Option<usize>,
}

/// The namespace's state.
pub struct CommandLine {
    line: Option<CmdLine>,
    /// The command-line window, when open.
    window: Option<CmdWin>,
    ex_history: CmdHistory,
    search_history: CmdHistory,
    /// The last search: its pattern and whether it went forward.
    last_search: Option<(String, bool)>,
}

/// The view of the command-line window: its kind, its lines, the selected one.
pub struct WindowV {
    pub kind: char,
    pub lines: Seq<Seq<char>>,
    pub selected: int,
}

/// The view of the namespace's state.
pub struct CommandLineV {
    pub line: Option<LineV>,
    pub window: Option<WindowV>,
    /// The `:` ring, oldest first, and its capacity.
    pub ex: Seq<Seq<char>>,
    pub ex_cap: nat,
    /// The search ring, oldest first, and its capacity.
    pub search: Seq<Seq<char>>,
    pub search_cap: nat,
    pub last_search: Option<(Seq<char>, bool)>,
}

/// What a key on the line comes to.
#[derive(PartialEq, Eq, Debug)]
pub enum LineFeed {
    /// Not handled here (no line is open), or the line closed with nothing to run.
    Ignored,
    /// Handled; the line stays open.
    Pending,
    /// Run this ex line.
    ExecuteEx(String),
    /// Search for this pattern, backward or forward.
    Search { pattern: String, backward: bool },
    /// Evaluate this expression for this target.
    Expr { target: ExprTarget, text: String },
    /// Run this command, named on the `M-x` line.
    Command(EmacsCommand),
}

/// The view of a line outcome.
pub enum LineFeedV {
    Ignored,
    Pending,
    ExecuteEx(Seq<char>),
    Search { pattern: Seq<char>, backward: bool },
    Expr { target: ExprTarget, text: Seq<char> },
    Command(EmacsCommand),
}

impl View for LineFeed {
    type V = LineFeedV;

    open spec fn view(&self) -> LineFeedV {
        match self {
            LineFeed::Ignored => LineFeedV::Ignored,
            LineFeed::Pending => LineFeedV::Pending,
            LineFeed::ExecuteEx(t) => LineFeedV::ExecuteEx(t@),
            LineFeed::Search { pattern, backward } => LineFeedV::Search { pattern: pattern@, backward: *backward },
            LineFeed::Expr { target, text } => LineFeedV::Expr { target: *target, text: text@ },
            LineFeed::Command(c) => LineFeedV::Command(*c),
        }
    }
}

/// The view of an open line.
pub closed spec fn line_view(l: CmdLine) -> LineV {
    LineV {
        prefix: l.prefix,
        buffer: l.buffer@,
        cursor: l.cursor,
        ex_mode: l.ex_mode,
        mx: l.mx,
        expr: l.expr,
        draft: l.walk.draft_view(),
        pos: l.walk.position(),
    }
}

impl View for CommandLine {
    type V = CommandLineV;

    closed spec fn view(&self) -> CommandLineV {
        CommandLineV {
            line: match self.line {
                Some(l) => Some(line_view(l)),
                None => None,
            },
            window: match self.window {
                Some(w) => Some(WindowV { kind: w.kind_view(), lines: w.lines_view(), selected: w.selected_index() }),
                None => None,
            },
            ex: self.ex_history@,
            ex_cap: self.ex_history.capacity(),
            search: self.search_history@,
            search_cap: self.search_history.capacity(),
            last_search: match self.last_search {
                Some((p, f)) => Some((p@, f)),
                None => None,
            },
        }
    }
}

/// Whether a line with `prefix` is a search line.
pub open spec fn is_search(prefix: char) -> bool {
    prefix == '/' || prefix == '?'
}

/// The history ring a line with `prefix` recalls from.
pub open spec fn ring_for(v: CommandLineV, prefix: char) -> Seq<Seq<char>> {
    if is_search(prefix) {
        v.search
    } else {
        v.ex
    }
}

/// The namespace's invariant: both rings are well formed, and the walk of an open line points
/// into (or just past) its ring.
pub open spec fn cmdline_ok(v: CommandLineV) -> bool {
    &&& ring_ok(v.ex, v.ex_cap)
    &&& ring_ok(v.search, v.search_cap)
    &&& (v.line matches Some(l) ==> (l.pos matches Some(p) ==> p <= ring_for(v, l.prefix).len()))
    &&& (v.window matches Some(w) ==> 0 <= w.selected < w.lines.len() && w.lines.no_duplicates())
}

/// A freshly opened line.
pub open spec fn fresh_line(prefix: char, ex_mode: bool, mx: bool, expr: Option<ExprTarget>) -> LineV {
    LineV { prefix, buffer: seq![], cursor: 0, ex_mode, mx, expr, draft: None, pos: None }
}

/// A recall step on `ring`: `<Up>`/`<C-p>` (`prev`) shows the nearest older eligible entry,
/// `<Down>`/`<C-n>` the nearest newer one, or the draft past the newest. What is shown, if
/// anything changes, and where the walk then stands.
pub open spec fn recalled(ring: Seq<Seq<char>>, draft: Seq<char>, pos: Option<usize>, prev: bool, filter: bool) -> (
    Option<Seq<char>>,
    Option<usize>,
) {
    if prev {
        let start = match pos {
            Some(p) => p as int,
            None => ring.len() as int,
        };
        match prev_match(ring, start, filter, draft) {
            Some(j) => (Some(ring[j]), Some(j as usize)),
            None => (None, pos),
        }
    } else {
        match pos {
            None => (None, None),
            Some(p) => match next_match(ring, p + 1, filter, draft) {
                Some(j) => (Some(ring[j]), Some(j as usize)),
                None => (Some(draft), None),
            },
        }
    }
}

/// A recall key on line `l`: the minibuffer and the expression prompt have no history.
pub open spec fn recall_step(v: CommandLineV, l: LineV, prev: bool, filter: bool) -> (CommandLineV, LineFeedV) {
    if l.mx || l.expr is Some {
        (v, LineFeedV::Pending)
    } else {
        let draft = match l.draft {
            Some(d) => d,
            None => l.buffer,
        };
        let (shown, pos) = recalled(ring_for(v, l.prefix), draft, l.pos, prev, filter);
        let l2 = match shown {
            Some(t) => LineV { buffer: t, cursor: t.len() as usize, draft: Some(draft), pos, ..l },
            None => LineV { draft: Some(draft), pos, ..l },
        };
        (CommandLineV { line: Some(l2), ..v }, LineFeedV::Pending)
    }
}

/// Completing a search for `pattern` (the line closes): an empty pattern reuses the last search's
/// pattern in this line's direction, and with no last search nothing runs.
pub open spec fn search_step(v: CommandLineV, pattern: Seq<char>, backward: bool) -> (CommandLineV, LineFeedV) {
    let closed = CommandLineV { line: None, ..v };
    if pattern.len() == 0 {
        match v.last_search {
            Some((p, _)) => (
                CommandLineV { last_search: Some((p, !backward)), ..closed },
                LineFeedV::Search { pattern: p, backward },
            ),
            None => (closed, LineFeedV::Ignored),
        }
    } else {
        (
            CommandLineV { last_search: Some((pattern, !backward)), ..closed },
            LineFeedV::Search { pattern, backward },
        )
    }
}

/// `<CR>` on line `l`: an expression goes to its target and a command name runs (an unknown name
/// does nothing), closing the line; in Ex mode an empty line, `visual` or `vi` leaves, anything else is recorded and runs
/// with the line prompting again; otherwise the line closes, is recorded in its ring, and runs
/// as a search or an ex line.
pub open spec fn enter_step(v: CommandLineV, l: LineV) -> (CommandLineV, LineFeedV) {
    let text = l.buffer;
    let closed = CommandLineV { line: None, ..v };
    match l.expr {
        Some(t) => (closed, LineFeedV::Expr { target: t, text }),
        None => if l.mx {
            (
                closed,
                match emacs_command_of(text) {
                    Some(c) => LineFeedV::Command(c),
                    None => LineFeedV::Ignored,
                },
            )
        } else if l.ex_mode {
            if text.len() == 0 || text == "visual"@ || text == "vi"@ {
                (closed, LineFeedV::Ignored)
            } else {
                (
                    CommandLineV {
                        ex: crate::input::history::pushed(v.ex, text, v.ex_cap),
                        line: Some(LineV { buffer: seq![], cursor: 0, draft: None, pos: None, ..l }),
                        ..v
                    },
                    LineFeedV::ExecuteEx(text),
                )
            }
        } else if is_search(l.prefix) {
            search_step(
                CommandLineV { search: crate::input::history::pushed(v.search, text, v.search_cap), ..v },
                text,
                l.prefix == '?',
            )
        } else {
            (
                CommandLineV { ex: crate::input::history::pushed(v.ex, text, v.ex_cap), line: None, ..v },
                LineFeedV::ExecuteEx(text),
            )
        },
    }
}

/// What `key` does on the line: `<Up>`/`<Down>` recall history filtered by the draft,
/// `<C-p>`/`<C-n>` walk it raw, `<Esc>` closes the line, `<BS>` deletes the last character, a
/// character key is typed (both ending the recall walk), `<CR>` completes the line, any other key
/// does nothing; with no line open nothing is handled.
pub open spec fn key_step(v: CommandLineV, key: KeyEvent) -> (CommandLineV, LineFeedV) {
    match v.line {
        None => (v, LineFeedV::Ignored),
        Some(l) => {
            let ctrl = has_ctrl(key.modifiers);
            match key.code {
                KeyCode::Up => recall_step(v, l, true, true),
                KeyCode::Down => recall_step(v, l, false, true),
                KeyCode::Char(c) => if ctrl && c == 'p' {
                    recall_step(v, l, true, false)
                } else if ctrl && c == 'n' {
                    recall_step(v, l, false, false)
                } else {
                    let b = l.buffer.push(c);
                    (
                        CommandLineV {
                            line: Some(LineV { buffer: b, cursor: b.len() as usize, draft: None, pos: None, ..l }),
                            ..v
                        },
                        LineFeedV::Pending,
                    )
                },
                KeyCode::Esc => (CommandLineV { line: None, ..v }, LineFeedV::Ignored),
                KeyCode::Backspace => {
                    let b = if l.buffer.len() > 0 { l.buffer.drop_last() } else { l.buffer };
                    (
                        CommandLineV {
                            line: Some(LineV { buffer: b, cursor: b.len() as usize, draft: None, pos: None, ..l }),
                            ..v
                        },
                        LineFeedV::Pending,
                    )
                },
                KeyCode::Enter => enter_step(v, l),
                _ => (v, LineFeedV::Pending),
            }
        },
    }
}

/// `<CR>` on the command-line window: the window closes; the selected line, unless it is the
/// empty one, is recorded in its ring and runs as a search or an ex line, exactly as when typed.
pub open spec fn window_enter_step(v: CommandLineV, w: WindowV) -> (CommandLineV, LineFeedV) {
    let text = w.lines[w.selected];
    let closed = CommandLineV { window: None, ..v };
    if text.len() == 0 {
        (closed, LineFeedV::Ignored)
    } else if is_search(w.kind) {
        search_step(
            CommandLineV { search: crate::input::history::pushed(v.search, text, v.search_cap), ..closed },
            text,
            w.kind == '?',
        )
    } else {
        (CommandLineV { ex: crate::input::history::pushed(v.ex, text, v.ex_cap), ..closed }, LineFeedV::ExecuteEx(text))
    }
}

/// The window with the selection at `sel`.
pub open spec fn select(v: CommandLineV, w: WindowV, sel: int) -> CommandLineV {
    CommandLineV { window: Some(WindowV { selected: sel, ..w }), ..v }
}

/// What `key` does in the command-line window: `j`/`<Down>` and `k`/`<Up>` move the selection
/// (bounded), `G` jumps to the empty last line, `<CR>` runs the selected line, `<Esc>`/`<C-c>`
/// close the window without running anything, and any other key is swallowed; with no window
/// open nothing is handled.
pub open spec fn window_step(v: CommandLineV, key: KeyEvent) -> (CommandLineV, LineFeedV) {
    match v.window {
        None => (v, LineFeedV::Ignored),
        Some(w) => {
            let down = if w.selected + 1 < w.lines.len() { w.selected + 1 } else { w.selected };
            let up = if w.selected > 0 { w.selected - 1 } else { 0 };
            match key.code {
                KeyCode::Char(c) => if has_ctrl(key.modifiers) && c == 'c' {
                    (CommandLineV { window: None, ..v }, LineFeedV::Ignored)
                } else if c == 'j' {
                    (select(v, w, down), LineFeedV::Pending)
                } else if c == 'k' {
                    (select(v, w, up), LineFeedV::Pending)
                } else if c == 'G' {
                    (select(v, w, w.lines.len() - 1), LineFeedV::Pending)
                } else {
                    (v, LineFeedV::Pending)
                },
                KeyCode::Esc => (CommandLineV { window: None, ..v }, LineFeedV::Ignored),
                KeyCode::Down => (select(v, w, down), LineFeedV::Pending),
                KeyCode::Up => (select(v, w, up), LineFeedV::Pending),
                KeyCode::Enter => window_enter_step(v, w),
                _ => (v, LineFeedV::Pending),
            }
        },
    }
}

impl CommandLine {
    /// The namespace's invariant (see `cmdline_ok`).
    pub open spec fn well_formed(&self) -> bool {
        cmdline_ok(self@)
    }

    /// No line open, empty rings of capacity `cap` (at least one), no last search.
    pub fn new(cap: usize) -> (r: CommandLine)
        ensures
            r.well_formed(),
            r@.line is None,
            r@.window is None,
            r@.ex == Seq::<Seq<char>>::empty(),
            r@.search == Seq::<Seq<char>>::empty(),
            r@.ex_cap == (if cap >= 1 { cap as nat } else { 1 }),
            r@.search_cap == (if cap >= 1 { cap as nat } else { 1 }),
            r@.last_search is None,
    {
        CommandLine {
            line: None,
            window: None,
            ex_history: CmdHistory::new(cap),
            search_history: CmdHistory::new(cap),
            last_search: None,
        }
    }

    fn open_with(&mut self, prefix: char, ex_mode: bool, mx: bool, expr: Option<ExprTarget>)
        requires
            old(self).well_formed(),
        ensures
            final(self).well_formed(),
            final(self)@ == (CommandLineV { line: Some(fresh_line(prefix, ex_mode, mx, expr)), ..old(self)@ }),
    {
        let l = CmdLine { prefix, buffer: String::new(), cursor: 0, ex_mode, mx, expr, walk: HistWalk::new() };
        assert(line_view(l).buffer =~= Seq::<char>::empty());
        self.line = Some(l);
    }

    /// Opens the line with `prefix` (`:`, `/`, `?`), in Ex mode when `ex_mode`.
    pub fn open_cmdline(&mut self, prefix: char, ex_mode: bool)
        requires
            old(self).well_formed(),
        ensures
            final(self).well_formed(),
            final(self)@ == (CommandLineV { line: Some(fresh_line(prefix, ex_mode, false, None)), ..old(self)@ }),
    {
        self.open_with(prefix, ex_mode, false, None);
    }

    /// Opens the `M-x` minibuffer.
    pub fn open_minibuffer(&mut self)
        requires
            old(self).well_formed(),
        ensures
            final(self).well_formed(),
            final(self)@ == (CommandLineV { line: Some(fresh_line(':', false, true, None)), ..old(self)@ }),
    {
        self.open_with(':', false, true, None);
    }

    /// Opens the expression prompt for `target`.
    pub fn open_expr_prompt(&mut self, target: ExprTarget)
        requires
            old(self).well_formed(),
        ensures
            final(self).well_formed(),
            final(self)@ == (CommandLineV { line: Some(fresh_line('=', false, false, Some(target))), ..old(self)@ }),
    {
        self.open_with('=', false, false, Some(target));
    }

    /// The open line as `(prefix, text, cursor)`, for rendering.
    pub fn cmdline(&self) -> (r: Option<(char, &str, usize)>)
        ensures
            match self@.line {
                None => r is None,
                Some(l) => r matches Some((p, t, c)) && p == l.prefix && t@ == l.buffer && c == l.cursor,
            },
    {
        match &self.line {
            Some(l) => Some((l.prefix, l.buffer.as_str(), l.cursor)),
            None => None,
        }
    }

    /// Opens the command-line window for `kind` over its ring (`:` the ex ring, `/` and `?` the
    /// search ring), with the selection on the trailing empty line.
    pub fn open_cmdwin(&mut self, kind: char)
        requires
            old(self).well_formed(),
            ring_for(old(self)@, kind).len() < usize::MAX,
        ensures
            final(self).well_formed(),
            final(self)@ == (CommandLineV {
                window: Some(WindowV {
                    kind,
                    lines: ring_for(old(self)@, kind).push(Seq::<char>::empty()),
                    selected: ring_for(old(self)@, kind).len() as int,
                }),
                ..old(self)@
            }),
    {
        let w = if kind == '/' || kind == '?' {
            CmdWin::open(kind, self.search_history.entries_ref())
        } else {
            CmdWin::open(kind, self.ex_history.entries_ref())
        };
        proof {
            let ring = ring_for(self@, kind);
            let lines = ring.push(Seq::<char>::empty());
            assert(ring_ok(ring, if is_search(kind) { self@.search_cap } else { self@.ex_cap }));
            assert forall|a: int, b: int| 0 <= a < lines.len() && 0 <= b < lines.len() && a != b implies lines[a]
                != lines[b] by {
                if a < ring.len() && b < ring.len() {
                } else if a < ring.len() {
                    assert(ring[a].len() > 0);
                } else {
                    assert(ring[b].len() > 0);
                }
            }
        }
        self.window = Some(w);
    }

    /// The open window's kind, or none when it is closed.
    pub fn cmdwin(&self) -> (r: Option<char>)
        ensures
            match self@.window {
                None => r is None,
                Some(w) => r == Some(w.kind),
            },
    {
        match &self.window {
            Some(w) => Some(w.glyph()),
            None => None,
        }
    }

    /// The window's visible rows `(text, is_selected)`, or none when it is closed.
    pub fn cmdwin_rows(&self) -> (r: Vec<(String, bool)>)
        requires
            self.well_formed(),
        ensures
            match self@.window {
                None => r@.len() == 0,
                Some(w) => {
                    let len = w.lines.len() as int;
                    let start = crate::input::cmdwin::view_start(len, w.selected);
                    &&& r@.len() == crate::input::cmdwin::view_end(len, w.selected) - start
                    &&& forall|k: int|
                        0 <= k < r@.len() ==> (#[trigger] r@[k]).0@ == w.lines[start + k] && r@[k].1 == (start + k
                            == w.selected)
                },
            },
    {
        match &self.window {
            Some(w) => w.rows(),
            None => Vec::new(),
        }
    }

    /// What `key` does in the command-line window (see `window_step`).
    pub fn feed_cmdwin(&mut self, key: KeyEvent) -> (r: LineFeed)
        requires
            old(self).well_formed(),
        ensures
            final(self).well_formed(),
            (final(self)@, r@) == window_step(old(self)@, key),
    {
        let ctrl = key.modifiers.contains(KeyModifiers::control());
        assert(ctrl == has_ctrl(key.modifiers));
        let mut w = match self.window.take() {
            Some(w) => w,
            None => {
                return LineFeed::Ignored;
            },
        };
        match key.code {
            KeyCode::Char(c) => {
                if ctrl && c == 'c' {
                    return LineFeed::Ignored;
                }
                if c == 'j' {
                    w.down();
                } else if c == 'k' {
                    w.up();
                } else if c == 'G' {
                    // Move down until the selection's text stops changing: the lines are distinct, so
                    // that is the empty last line.
                    loop
                        invariant
                            w.well_formed(),
                            w.lines_view().no_duplicates(),
                            w.kind_view() == old(self)@.window->0.kind,
                            w.lines_view() == old(self)@.window->0.lines,
                        ensures
                            w.well_formed(),
                            w.lines_view() == old(self)@.window->0.lines,
                            w.kind_view() == old(self)@.window->0.kind,
                            w.selected_index() == w.lines_view().len() - 1,
                        decreases w.lines_view().len() - w.selected_index(),
                    {
                        let before = crate::text::owned(w.selected_line());
                        let ghost i = w.selected_index();
                        w.down();
                        if str_equal(before.as_str(), w.selected_line()) {
                            assert(w.selected_index() == i);
                            break;
                        }
                    }
                }
                self.window = Some(w);
                LineFeed::Pending
            },
            KeyCode::Esc => LineFeed::Ignored,
            KeyCode::Down => {
                w.down();
                self.window = Some(w);
                LineFeed::Pending
            },
            KeyCode::Up => {
                w.up();
                self.window = Some(w);
                LineFeed::Pending
            },
            KeyCode::Enter => {
                let kind = w.glyph();
                let text = crate::text::owned(w.selected_line());
                if text.as_str().is_empty() {
                    return LineFeed::Ignored;
                }
                if kind == '/' || kind == '?' {
                    self.search_history.push(text.as_str());
                    self.submit_search(text, kind == '?')
                } else {
                    self.ex_history.push(text.as_str());
                    LineFeed::ExecuteEx(text)
                }
            },
            _ => {
                self.window = Some(w);
                LineFeed::Pending
            },
        }
    }

    /// The `:` ring.
    pub fn ex_history(&self) -> (r: &CmdHistory)
        ensures
            r@ == self@.ex,
    {
        &self.ex_history
    }

    /// The search ring.
    pub fn search_history(&self) -> (r: &CmdHistory)
        ensures
            r@ == self@.search,
    {
        &self.search_history
    }

    /// Records `pattern` as the last search, in the direction given.
    pub fn set_last_search(&mut self, pattern: String, forward: bool)
        requires
            old(self).well_formed(),
        ensures
            final(self).well_formed(),
            final(self)@ == (CommandLineV { last_search: Some((pattern@, forward)), ..old(self)@ }),
    {
        self.last_search = Some((pattern, forward));
    }

    /// The pattern of the last search.
    pub fn last_search(&self) -> (r: Option<&str>)
        ensures
            match self@.last_search {
                None => r is None,
                Some((p, _)) => r matches Some(s) && s@ == p,
            },
    {
        match &self.last_search {
            Some((p, _)) => Some(p.as_str()),
            None => None,
        }
    }

    /// Completes a search for `pattern`, closing the line (see `search_step`).
    pub fn submit_search(&mut self, pattern: String, backward: bool) -> (r: LineFeed)
        requires
            old(self).well_formed(),
        ensures
            final(self).well_formed(),
            (final(self)@, r@) == search_step(old(self)@, pattern@, backward),
    {
        self.line = None;
        let pattern = if pattern.as_str().is_empty() {
            match &self.last_search {
                Some((p, _)) => p.clone(),
                None => {
                    return LineFeed::Ignored;
                },
            }
        } else {
            pattern
        };
        self.last_search = Some((pattern.clone(), !backward));
        LineFeed::Search { pattern, backward }
    }

    /// A recall key on the open line `l` (see `recall_step`).
    fn recall(&mut self, mut l: CmdLine, prev: bool, filter: bool) -> (r: LineFeed)
        requires
            old(self).line is None,
            cmdline_ok(CommandLineV { line: Some(line_view(l)), ..old(self)@ }),
        ensures
            final(self).well_formed(),
            (final(self)@, r@) == recall_step(
                CommandLineV { line: Some(line_view(l)), ..old(self)@ },
                line_view(l),
                prev,
                filter,
            ),
    {
        let ghost v0 = CommandLineV { line: Some(line_view(l)), ..old(self)@ };
        if l.mx || l.expr.is_some() {
            self.line = Some(l);
            return LineFeed::Pending;
        }
        let search = l.prefix == '/' || l.prefix == '?';
        let shown = if search {
            if prev {
                self.search_history.recall_prev(&mut l.walk, l.buffer.as_str(), filter)
            } else {
                self.search_history.recall_next(&mut l.walk, l.buffer.as_str(), filter)
            }
        } else {
            if prev {
                self.ex_history.recall_prev(&mut l.walk, l.buffer.as_str(), filter)
            } else {
                self.ex_history.recall_next(&mut l.walk, l.buffer.as_str(), filter)
            }
        };
        if let Some(text) = shown {
            l.cursor = chars_of(text.as_str()).len();
            l.buffer = text;
        }
        self.line = Some(l);
        LineFeed::Pending
    }

    /// What `key` does on the line (see `key_step`).
    pub fn feed_cmdline(&mut self, key: KeyEvent) -> (r: LineFeed)
        requires
            old(self).well_formed(),
        ensures
            final(self).well_formed(),
            (final(self)@, r@) == key_step(old(self)@, key),
    {
        let mut l = match self.line.take() {
            Some(l) => l,
            None => {
                return LineFeed::Ignored;
            },
        };
        let ctrl = key.modifiers.contains(KeyModifiers::control());
        assert(ctrl == has_ctrl(key.modifiers));
        match key.code {
            KeyCode::Up => {
                return self.recall(l, true, true);
            },
            KeyCode::Down => {
                return self.recall(l, false, true);
            },
            KeyCode::Char(c) => {
                if ctrl && c == 'p' {
                    return self.recall(l, true, false);
                }
                if ctrl && c == 'n' {
                    return self.recall(l, false, false);
                }
                push_char(&mut l.buffer, c);
                l.cursor = chars_of(l.buffer.as_str()).len();
                l.walk = HistWalk::new();
                self.line = Some(l);
                LineFeed::Pending
            },
            KeyCode::Esc => LineFeed::Ignored,
            KeyCode::Backspace => {
                let mut cs = chars_of(l.buffer.as_str());
                if cs.len() > 0 {
                    cs.pop();
                }
                assert(l.buffer@.len() > 0 ==> cs@ =~= l.buffer@.drop_last());
                l.buffer = string_of(cs.as_slice());
                l.cursor = cs.len();
                l.walk = HistWalk::new();
                self.line = Some(l);
                LineFeed::Pending
            },
            KeyCode::Enter => self.enter(l),
            _ => {
                self.line = Some(l);
                LineFeed::Pending
            },
        }
    }

    /// `<CR>` on the open line `l` (see `enter_step`).
    fn enter(&mut self, l: CmdLine) -> (r: LineFeed)
        requires
            old(self).line is None,
            cmdline_ok(CommandLineV { line: Some(line_view(l)), ..old(self)@ }),
        ensures
            final(self).well_formed(),
            (final(self)@, r@) == enter_step(CommandLineV { line: Some(line_view(l)), ..old(self)@ }, line_view(l)),
    {
        let CmdLine { prefix, buffer: text, cursor, ex_mode, mx, expr, walk } = l;
        if let Some(t) = expr {
            return LineFeed::Expr { target: t, text };
        }
        if mx {
            return match emacs_command_by_name(text.as_str()) {
                Some(c) => LineFeed::Command(c),
                None => LineFeed::Ignored,
            };
        }
        if ex_mode {
            if text.as_str().is_empty() || str_equal(text.as_str(), "visual") || str_equal(text.as_str(), "vi") {
                return LineFeed::Ignored;
            }
            self.ex_history.push(text.as_str());
            let again = CmdLine { prefix, buffer: String::new(), cursor: 0, ex_mode, mx, expr, walk: HistWalk::new() };
            assert(line_view(again).buffer =~= Seq::<char>::empty());
            self.line = Some(again);
            return LineFeed::ExecuteEx(text);
        }
        if prefix == '/' || prefix == '?' {
            self.search_history.push(text.as_str());
            return self.submit_search(text, prefix == '?');
        }
        self.ex_history.push(text.as_str());
        LineFeed::ExecuteEx(text)
    }
}

/// A key without modifiers.
pub open spec fn plain_key(code: KeyCode) -> KeyEvent {
    KeyEvent { code, modifiers: KeyModifiers { bits: 0 } }
}

/// Law: an accepted `:` line is the first one recalled: after `<CR>` runs a non-empty ex line,
/// opening `:` again and pressing `<Up>` shows that line.
pub proof fn law_accepted_line_is_recalled(v: CommandLineV)
    requires
        cmdline_ok(v),
        v.line matches Some(l) && l.prefix == ':' && !l.mx && l.expr is None && !l.ex_mode && l.buffer.len() > 0,
    ensures
        ({
            let l = v.line->0;
            let (v1, r1) = key_step(v, plain_key(KeyCode::Enter));
            let v2 = CommandLineV { line: Some(fresh_line(':', false, false, None)), ..v1 };
            let (v3, r3) = key_step(v2, plain_key(KeyCode::Up));
            &&& r1 == LineFeedV::ExecuteEx(l.buffer)
            &&& r3 == LineFeedV::Pending
            &&& v3.line matches Some(l3) && l3.buffer == l.buffer
        }),
{
    let l = v.line->0;
    law_recall_after_push(v.ex, l.buffer, v.ex_cap, true, seq![]);
    assert(Seq::<char>::empty().is_prefix_of(l.buffer));
}

/// Law: running a line from the command-line window is running it from the prompt: `<CR>` on a
/// selected non-empty line gives the same outcome, the same rings and the same last search as
/// typing that line at the window's prompt and pressing `<CR>`.
pub proof fn law_window_runs_like_the_prompt(v: CommandLineV)
    requires
        v.line is None,
        v.window matches Some(w) && 0 <= w.selected < w.lines.len() && w.lines[w.selected].len() > 0,
    ensures
        ({
            let w = v.window->0;
            let text = w.lines[w.selected];
            let typed = LineV {
                prefix: w.kind,
                buffer: text,
                cursor: text.len() as usize,
                ex_mode: false,
                mx: false,
                expr: None,
                draft: None,
                pos: None,
            };
            window_step(v, plain_key(KeyCode::Enter)) == key_step(
                CommandLineV { line: Some(typed), window: None, ..v },
                plain_key(KeyCode::Enter),
            )
        }),
{
}

} // verus!
