//! The ex command-line (`:` line) parser: the command model, its mathematical view, and
//! `parse_ex`, whose result is stated exactly by `ex_of`.
use vstd::prelude::*;
use crate::text::{chars_of, owned, string_of};
use crate::words::{eq_lit, strip_prefix, trim, trim_of};
use args::{
    bang_of, buffer_of, edit_of, lmap_of, normal_of, parse_bang, parse_buffer, parse_edit, parse_lmap,
    parse_normal, parse_read, parse_rename, read_of, rename_of,
};
use opts::{parse_set, parse_sort, parse_time_travel, set_of, sort_of, time_travel_of};
use range::{
    join_of, parse_join, parse_put, parse_range_verb, parse_range_verb_dest, parse_shift, put_of,
    range_verb_dest_of, range_verb_of, shift_of, views_of,
};
use subst::{
    global_of, parse_global_chars, parse_repeat_substitute, parse_substitute_chars, repeat_substitute_of,
    substitute_of,
};

pub mod args;
pub mod opts;
pub mod range;
pub mod subst;

pub use opts::{SortOptions, SortOptionsV};
pub use range::{LineAddr, SubRange};
pub use subst::{GlobalCmd, GlobalCmdV, GlobalPayload, GlobalPayloadV, GlobalSpec, GlobalSpecV, SubSpec, SubSpecV};

verus! {

/// The flags of a substitute that the engine honours.
#[derive(Clone, Copy, PartialEq, Eq, Debug, Structural)]
pub struct SubFlags {
    /// `g`: replace every match on a line.
    pub global: bool,
    /// `i` gives `Some(true)`, `I` gives `Some(false)`, neither gives `None`.
    pub ignore_case: Option<bool>,
}

impl Default for SubFlags {
    /// No flags: the first match of a line, with the configured case rule.
    fn default() -> (r: SubFlags)
        ensures
            r == (SubFlags { global: false, ignore_case: None }),
    {
        SubFlags { global: false, ignore_case: None }
    }
}

/// An editor option set by `:set`.
#[derive(Clone, Copy, PartialEq, Eq, Debug, Structural)]
pub enum EditorOption {
    IgnoreCase(bool),
    SmartCase(bool),
    ExpandTab(bool),
    ShiftWidth(usize),
    TextWidth(usize),
}

/// The source of a `:read`: a file, or the output of a shell command.
#[derive(Clone, PartialEq, Eq, Debug)]
pub enum ReadSource {
    /// `:r {file}`.
    File(String),
    /// `:r !{cmd}`.
    Command(String),
}

/// The view of a `ReadSource`.
pub enum ReadSourceV {
    File(Seq<char>),
    Command(Seq<char>),
}

impl View for ReadSource {
    type V = ReadSourceV;

    open spec fn view(&self) -> ReadSourceV {
        match self {
            ReadSource::File(s) => ReadSourceV::File(s@),
            ReadSource::Command(s) => ReadSourceV::Command(s@),
        }
    }
}

/// The target of `:b`: a buffer number, or the alternate buffer.
#[derive(Clone, Copy, PartialEq, Eq, Debug, Structural)]
pub enum BufTarget {
    /// `:b {n}`.
    Number(u64),
    /// `:b#`.
    Alternate,
}

/// A parsed ex command.
#[derive(Clone, PartialEq, Eq, Debug)]
pub enum Ex {
    Save,
    /// `:q` / `:quit`.
    Quit,
    /// `:q!` / `:quit!`.
    QuitForce,
    SaveQuit,
    SaveTrace(String),
    /// `:split` / `:sp`.
    Split,
    /// `:vsplit` / `:vs`.
    VSplit,
    /// `:close` / `:clo`.
    Close,
    /// `:only` / `:on`.
    Only,
    /// `:terminal` / `:term`.
    Terminal,
    /// `:fmt` / `:format`.
    Format,
    /// `:rename {new}` / `:rn {new}`.
    Rename(String),
    /// `:references` / `:refs` / `:ref`.
    References,
    /// `:codeaction` / `:ca`.
    CodeAction,
    /// `:diagnostics` / `:diags` / `:diag`.
    Diagnostics,
    /// `:registers` / `:reg` / `:display`.
    Registers,
    /// `:digraphs` / `:dig`.
    Digraphs,
    /// `:marks`.
    Marks,
    /// `:jumps`.
    Jumps,
    /// `:changes`.
    Changes,
    /// `:[range]d` / `:delete`.
    Delete(SubRange),
    /// `:[range]y` / `:yank`.
    Yank(SubRange),
    /// `:[range]j[oin][!]`.
    Join { range: SubRange, bang: bool },
    /// `:[range]m {addr}` / `:move`.
    Move(SubRange, LineAddr),
    /// `:[range]t {addr}` / `:copy` / `:co`.
    Copy(SubRange, LineAddr),
    /// `:[range]sort[!] [flags] [/pattern/]`.
    Sort(SubRange, SortOptions),
    /// `:[range]>` / `:[range]<`, repeated for more levels.
    Shift { range: SubRange, left: bool, levels: u32 },
    /// `:[line]put [reg]` / `:pu`.
    Put { addr: LineAddr, reg: Option<char> },
    /// `:set {option}`.
    SetOption(EditorOption),
    /// `:earlier [N]` / `:ea`.
    Earlier(u32),
    /// `:later [N]` / `:lat`.
    Later(u32),
    /// `:[range]s/pat/rep/flags`.
    Substitute(SubSpec),
    /// `:[range]s`, `:[range]s {flags}`, `:[range]&`, `:[range]&&`.
    RepeatSubstitute { range: SubRange, flags: Option<SubFlags> },
    /// `:[range]g/pat/cmd`, `:g!`, `:v`.
    Global(GlobalSpec),
    /// `:noh` / `:nohlsearch`.
    NoHighlight,
    /// `:set (no)hlsearch`.
    SetHlSearch(bool),
    /// `:set (no)incsearch`.
    SetIncSearch(bool),
    /// `:set (no)fixeol` / `(no)fixendofline`.
    SetFixEol(bool),
    /// `:lmap {lhs} {rhs}`.
    Lmap { lhs: char, rhs: char },
    /// `:lunmap {lhs}`.
    Lunmap { lhs: char },
    /// `:checkhealth` / `:che`.
    CheckHealth,
    /// `:enew` / `:ene`.
    Enew,
    /// `:e {file}` / `:edit {file}`.
    Edit(String),
    /// `:e!` / `:edit!`.
    EditReload,
    /// `:ls` / `:buffers`.
    Buffers,
    /// `:bnext` / `:bn`.
    BufferNext,
    /// `:bprevious` / `:bp`.
    BufferPrev,
    /// `:b {n}` / `:b#`.
    Buffer(BufTarget),
    /// `:bd` / `:bdelete`, with `!` to force.
    BufferDelete { force: bool },
    /// `:[range]normal[!] {keys}`.
    Normal { bang: bool, range: Option<SubRange>, keys: String },
    /// `:[addr]r[ead] {file}` / `:[addr]r[ead] !{cmd}`.
    Read { addr: LineAddr, source: ReadSource },
    /// `:{range}!{cmd}`.
    Filter { range: SubRange, cmd: String },
    /// `:!{cmd}`.
    Shell(String),
    Unknown(String),
}

/// The view of an `Ex`: its texts as character sequences.
pub enum ExV {
    Save,
    Quit,
    QuitForce,
    SaveQuit,
    SaveTrace(Seq<char>),
    Split,
    VSplit,
    Close,
    Only,
    Terminal,
    Format,
    Rename(Seq<char>),
    References,
    CodeAction,
    Diagnostics,
    Registers,
    Digraphs,
    Marks,
    Jumps,
    Changes,
    Delete(SubRange),
    Yank(SubRange),
    Join { range: SubRange, bang: bool },
    Move(SubRange, LineAddr),
    Copy(SubRange, LineAddr),
    Sort(SubRange, SortOptionsV),
    Shift { range: SubRange, left: bool, levels: u32 },
    Put { addr: LineAddr, reg: Option<char> },
    SetOption(EditorOption),
    Earlier(u32),
    Later(u32),
    Substitute(SubSpecV),
    RepeatSubstitute { range: SubRange, flags: Option<SubFlags> },
    Global(GlobalSpecV),
    NoHighlight,
    SetHlSearch(bool),
    SetIncSearch(bool),
    SetFixEol(bool),
    Lmap { lhs: char, rhs: char },
    Lunmap { lhs: char },
    CheckHealth,
    Enew,
    Edit(Seq<char>),
    EditReload,
    Buffers,
    BufferNext,
    BufferPrev,
    Buffer(BufTarget),
    BufferDelete { force: bool },
    Normal { bang: bool, range: Option<SubRange>, keys: Seq<char> },
    Read { addr: LineAddr, source: ReadSourceV },
    Filter { range: SubRange, cmd: Seq<char> },
    Shell(Seq<char>),
    Unknown(Seq<char>),
}

impl View for Ex {
    type V = ExV;

    open spec fn view(&self) -> ExV {
        match self {
            Ex::Save => ExV::Save,
            Ex::Quit => ExV::Quit,
            Ex::QuitForce => ExV::QuitForce,
            Ex::SaveQuit => ExV::SaveQuit,
            Ex::SaveTrace(s) => ExV::SaveTrace(s@),
            Ex::Split => ExV::Split,
            Ex::VSplit => ExV::VSplit,
            Ex::Close => ExV::Close,
            Ex::Only => ExV::Only,
            Ex::Terminal => ExV::Terminal,
            Ex::Format => ExV::Format,
            Ex::Rename(s) => ExV::Rename(s@),
            Ex::References => ExV::References,
            Ex::CodeAction => ExV::CodeAction,
            Ex::Diagnostics => ExV::Diagnostics,
            Ex::Registers => ExV::Registers,
            Ex::Digraphs => ExV::Digraphs,
            Ex::Marks => ExV::Marks,
            Ex::Jumps => ExV::Jumps,
            Ex::Changes => ExV::Changes,
            Ex::Delete(r) => ExV::Delete(*r),
            Ex::Yank(r) => ExV::Yank(*r),
            Ex::Join { range, bang } => ExV::Join { range: *range, bang: *bang },
            Ex::Move(r, a) => ExV::Move(*r, *a),
            Ex::Copy(r, a) => ExV::Copy(*r, *a),
            Ex::Sort(r, o) => ExV::Sort(*r, o@),
            Ex::Shift { range, left, levels } => ExV::Shift { range: *range, left: *left, levels: *levels },
            Ex::Put { addr, reg } => ExV::Put { addr: *addr, reg: *reg },
            Ex::SetOption(o) => ExV::SetOption(*o),
            Ex::Earlier(n) => ExV::Earlier(*n),
            Ex::Later(n) => ExV::Later(*n),
            Ex::Substitute(s) => ExV::Substitute(s@),
            Ex::RepeatSubstitute { range, flags } => ExV::RepeatSubstitute { range: *range, flags: *flags },
            Ex::Global(g) => ExV::Global(g@),
            Ex::NoHighlight => ExV::NoHighlight,
            Ex::SetHlSearch(b) => ExV::SetHlSearch(*b),
            Ex::SetIncSearch(b) => ExV::SetIncSearch(*b),
            Ex::SetFixEol(b) => ExV::SetFixEol(*b),
            Ex::Lmap { lhs, rhs } => ExV::Lmap { lhs: *lhs, rhs: *rhs },
            Ex::Lunmap { lhs } => ExV::Lunmap { lhs: *lhs },
            Ex::CheckHealth => ExV::CheckHealth,
            Ex::Enew => ExV::Enew,
            Ex::Edit(s) => ExV::Edit(s@),
            Ex::EditReload => ExV::EditReload,
            Ex::Buffers => ExV::Buffers,
            Ex::BufferNext => ExV::BufferNext,
            Ex::BufferPrev => ExV::BufferPrev,
            Ex::Buffer(t) => ExV::Buffer(*t),
            Ex::BufferDelete { force } => ExV::BufferDelete { force: *force },
            Ex::Normal { bang, range, keys } => ExV::Normal { bang: *bang, range: *range, keys: keys@ },
            Ex::Read { addr, source } => ExV::Read { addr: *addr, source: source@ },
            Ex::Filter { range, cmd } => ExV::Filter { range: *range, cmd: cmd@ },
            Ex::Shell(s) => ExV::Shell(s@),
            Ex::Unknown(s) => ExV::Unknown(s@),
        }
    }
}

/// The commands that are a fixed word, with their abbreviations.
pub open spec fn literal_of(t: Seq<char>) -> Option<ExV> {
    if t == "w"@ {
        Some(ExV::Save)
    } else if t == "q"@ || t == "quit"@ {
        Some(ExV::Quit)
    } else if t == "q!"@ || t == "quit!"@ {
        Some(ExV::QuitForce)
    } else if t == "wq"@ || t == "x"@ {
        Some(ExV::SaveQuit)
    } else if t == "split"@ || t == "sp"@ {
        Some(ExV::Split)
    } else if t == "vsplit"@ || t == "vsp"@ || t == "vs"@ {
        Some(ExV::VSplit)
    } else if t == "close"@ || t == "clo"@ {
        Some(ExV::Close)
    } else if t == "only"@ || t == "on"@ {
        Some(ExV::Only)
    } else if t == "terminal"@ || t == "term"@ {
        Some(ExV::Terminal)
    } else if t == "fmt"@ || t == "format"@ {
        Some(ExV::Format)
    } else if t == "references"@ || t == "refs"@ || t == "ref"@ {
        Some(ExV::References)
    } else if t == "codeaction"@ || t == "codeactions"@ || t == "ca"@ {
        Some(ExV::CodeAction)
    } else if t == "diagnostics"@ || t == "diags"@ || t == "diag"@ {
        Some(ExV::Diagnostics)
    } else if t == "registers"@ || t == "reg"@ || t == "display"@ || t == "di"@ {
        Some(ExV::Registers)
    } else if t == "digraphs"@ || t == "digraph"@ || t == "dig"@ {
        Some(ExV::Digraphs)
    } else if t == "marks"@ {
        Some(ExV::Marks)
    } else if t == "jumps"@ {
        Some(ExV::Jumps)
    } else if t == "changes"@ {
        Some(ExV::Changes)
    } else if t == "noh"@ || t == "nohl"@ || t == "nohlsearch"@ {
        Some(ExV::NoHighlight)
    } else if t == "checkhealth"@ || t == "checkhealt"@ || t == "checkheal"@ || t == "che"@ {
        Some(ExV::CheckHealth)
    } else if t == "e!"@ || t == "edit!"@ {
        Some(ExV::EditReload)
    } else if t == "enew"@ || t == "ene"@ {
        Some(ExV::Enew)
    } else if t == "ls"@ || t == "buffers"@ || t == "files"@ {
        Some(ExV::Buffers)
    } else if t == "bnext"@ || t == "bn"@ {
        Some(ExV::BufferNext)
    } else if t == "bprevious"@ || t == "bprev"@ || t == "bp"@ {
        Some(ExV::BufferPrev)
    } else if t == "bd"@ || t == "bdelete"@ {
        Some(ExV::BufferDelete { force: false })
    } else if t == "bd!"@ || t == "bdelete!"@ {
        Some(ExV::BufferDelete { force: true })
    } else if t == "b#"@ || t == "buffer#"@ {
        Some(ExV::Buffer(BufTarget::Alternate))
    } else {
        None
    }
}

/// Parses the fixed-word commands (see `literal_of`).
fn parse_literal(t: &[char]) -> (r: Option<Ex>)
    ensures
        r matches Some(e) ==> literal_of(t@) == Some(e@),
        r is None ==> literal_of(t@) is None,
{
    if eq_lit(t, "w") {
        Some(Ex::Save)
    } else if eq_lit(t, "q") || eq_lit(t, "quit") {
        Some(Ex::Quit)
    } else if eq_lit(t, "q!") || eq_lit(t, "quit!") {
        Some(Ex::QuitForce)
    } else if eq_lit(t, "wq") || eq_lit(t, "x") {
        Some(Ex::SaveQuit)
    } else if eq_lit(t, "split") || eq_lit(t, "sp") {
        Some(Ex::Split)
    } else if eq_lit(t, "vsplit") || eq_lit(t, "vsp") || eq_lit(t, "vs") {
        Some(Ex::VSplit)
    } else if eq_lit(t, "close") || eq_lit(t, "clo") {
        Some(Ex::Close)
    } else if eq_lit(t, "only") || eq_lit(t, "on") {
        Some(Ex::Only)
    } else if eq_lit(t, "terminal") || eq_lit(t, "term") {
        Some(Ex::Terminal)
    } else if eq_lit(t, "fmt") || eq_lit(t, "format") {
        Some(Ex::Format)
    } else if eq_lit(t, "references") || eq_lit(t, "refs") || eq_lit(t, "ref") {
        Some(Ex::References)
    } else if eq_lit(t, "codeaction") || eq_lit(t, "codeactions") || eq_lit(t, "ca") {
        Some(Ex::CodeAction)
    } else if eq_lit(t, "diagnostics") || eq_lit(t, "diags") || eq_lit(t, "diag") {
        Some(Ex::Diagnostics)
    } else if eq_lit(t, "registers") || eq_lit(t, "reg") || eq_lit(t, "display") || eq_lit(t, "di") {
        Some(Ex::Registers)
    } else if eq_lit(t, "digraphs") || eq_lit(t, "digraph") || eq_lit(t, "dig") {
        Some(Ex::Digraphs)
    } else if eq_lit(t, "marks") {
        Some(Ex::Marks)
    } else if eq_lit(t, "jumps") {
        Some(Ex::Jumps)
    } else if eq_lit(t, "changes") {
        Some(Ex::Changes)
    } else if eq_lit(t, "noh") || eq_lit(t, "nohl") || eq_lit(t, "nohlsearch") {
        Some(Ex::NoHighlight)
    } else if eq_lit(t, "checkhealth") || eq_lit(t, "checkhealt") || eq_lit(t, "checkheal") || eq_lit(t, "che") {
        Some(Ex::CheckHealth)
    } else if eq_lit(t, "e!") || eq_lit(t, "edit!") {
        Some(Ex::EditReload)
    } else if eq_lit(t, "enew") || eq_lit(t, "ene") {
        Some(Ex::Enew)
    } else if eq_lit(t, "ls") || eq_lit(t, "buffers") || eq_lit(t, "files") {
        Some(Ex::Buffers)
    } else if eq_lit(t, "bnext") || eq_lit(t, "bn") {
        Some(Ex::BufferNext)
    } else if eq_lit(t, "bprevious") || eq_lit(t, "bprev") || eq_lit(t, "bp") {
        Some(Ex::BufferPrev)
    } else if eq_lit(t, "bd") || eq_lit(t, "bdelete") {
        Some(Ex::BufferDelete { force: false })
    } else if eq_lit(t, "bd!") || eq_lit(t, "bdelete!") {
        Some(Ex::BufferDelete { force: true })
    } else if eq_lit(t, "b#") || eq_lit(t, "buffer#") {
        Some(Ex::Buffer(BufTarget::Alternate))
    } else {
        None
    }
}

/// What the trimmed ex line `line` (no `:normal`, no fixed word) denotes: each form is tried
/// in turn, and a line that none accepts is `Unknown`.
pub open spec fn command_of(line: Seq<char>) -> ExV {
    if let Some(e) = lmap_of(line) {
        e
    } else if let Some(e) = buffer_of(line) {
        e
    } else if let Some(e) = edit_of(line) {
        e
    } else if let Some(n) = rename_of(line) {
        ExV::Rename(n)
    } else if let Some(e) = read_of(line) {
        e
    } else if let Some(e) = bang_of(line) {
        e
    } else if "trace save"@.is_prefix_of(line) {
        ExV::SaveTrace(trim_of(line.skip("trace save"@.len() as int)))
    } else if let Some(r) = range_verb_of(line, seq!["d"@, "delete"@]) {
        ExV::Delete(r)
    } else if let Some(r) = range_verb_of(line, seq!["y"@, "yank"@]) {
        ExV::Yank(r)
    } else if let Some((range, bang)) = join_of(line) {
        ExV::Join { range, bang }
    } else if let Some((r, d)) = range_verb_dest_of(line, seq!["move"@, "m"@]) {
        ExV::Move(r, d)
    } else if let Some((r, d)) = range_verb_dest_of(line, seq!["copy"@, "co"@, "t"@]) {
        ExV::Copy(r, d)
    } else if let Some((range, left, levels)) = shift_of(line) {
        ExV::Shift { range, left, levels }
    } else if let Some((addr, reg)) = put_of(line) {
        ExV::Put { addr, reg }
    } else if let Some(e) = sort_of(line) {
        e
    } else if let Some(e) = set_of(line) {
        e
    } else if let Some(e) = time_travel_of(line) {
        e
    } else if let Some(sp) = substitute_of(line, false) {
        ExV::Substitute(sp)
    } else if let Some((range, flags)) = repeat_substitute_of(line, false) {
        ExV::RepeatSubstitute { range, flags }
    } else if let Some(g) = global_of(line) {
        ExV::Global(g)
    } else {
        ExV::Unknown(line)
    }
}

/// What the text typed after `:` denotes: `:normal` is recognised on the raw line (its keys
/// keep their spaces); every other form on the trimmed line.
pub open spec fn ex_of(raw: Seq<char>) -> ExV {
    if let Some(e) = normal_of(raw) {
        e
    } else if let Some(e) = literal_of(trim_of(raw)) {
        e
    } else {
        command_of(trim_of(raw))
    }
}

/// Parses a trimmed ex line (see `command_of`).
fn parse_command(line: &[char]) -> (r: Ex)
    ensures
        r@ == command_of(line@),
{
    if let Some(e) = parse_lmap(line) {
        return e;
    }
    if let Some(e) = parse_buffer(line) {
        return e;
    }
    if let Some(e) = parse_edit(line) {
        return e;
    }
    if let Some(n) = parse_rename(line) {
        return Ex::Rename(n);
    }
    if let Some(e) = parse_read(line) {
        return e;
    }
    if let Some(e) = parse_bang(line) {
        return e;
    }
    if let Some(rest) = strip_prefix(line, "trace save") {
        let t = trim(rest.as_slice());
        return Ex::SaveTrace(string_of(t.as_slice()));
    }
    let d = vec!["d", "delete"];
    assert(views_of(d@) =~= seq!["d"@, "delete"@]);
    if let Some(r) = parse_range_verb(line, d.as_slice()) {
        return Ex::Delete(r);
    }
    let y = vec!["y", "yank"];
    assert(views_of(y@) =~= seq!["y"@, "yank"@]);
    if let Some(r) = parse_range_verb(line, y.as_slice()) {
        return Ex::Yank(r);
    }
    if let Some((range, bang)) = parse_join(line) {
        return Ex::Join { range, bang };
    }
    let mv = vec!["move", "m"];
    assert(views_of(mv@) =~= seq!["move"@, "m"@]);
    if let Some((r, dst)) = parse_range_verb_dest(line, mv.as_slice()) {
        return Ex::Move(r, dst);
    }
    let cp = vec!["copy", "co", "t"];
    assert(views_of(cp@) =~= seq!["copy"@, "co"@, "t"@]);
    if let Some((r, dst)) = parse_range_verb_dest(line, cp.as_slice()) {
        return Ex::Copy(r, dst);
    }
    if let Some((range, left, levels)) = parse_shift(line) {
        return Ex::Shift { range, left, levels };
    }
    if let Some((addr, reg)) = parse_put(line) {
        return Ex::Put { addr, reg };
    }
    if let Some(e) = parse_sort(line) {
        return e;
    }
    if let Some(e) = parse_set(line) {
        return e;
    }
    if let Some(e) = parse_time_travel(line) {
        return e;
    }
    if let Some(sp) = parse_substitute_chars(line, false) {
        return Ex::Substitute(sp);
    }
    if let Some((range, flags)) = parse_repeat_substitute(line, false) {
        return Ex::RepeatSubstitute { range, flags };
    }
    if let Some(g) = parse_global_chars(line) {
        return Ex::Global(g);
    }
    Ex::Unknown(string_of(line))
}

/// Parses the text typed after `:` (without the colon).
pub fn parse_ex(line: &str) -> (r: Ex)
    ensures
        r@ == ex_of(line@),
{
    let raw = chars_of(line);
    if let Some(e) = parse_normal(raw.as_slice()) {
        return e;
    }
    let t = trim(raw.as_slice());
    if let Some(e) = parse_literal(t.as_slice()) {
        return e;
    }
    parse_command(t.as_slice())
}

/// Parses a `:[range]s/pat/rep/flags` line; `gdefault` inverts the `g` flag (see
/// `substitute_of`).
pub fn parse_substitute(line: &str, gdefault: bool) -> (r: Option<SubSpec>)
    ensures
        r matches Some(s) ==> substitute_of(line@, gdefault) == Some(s@),
        r is None ==> substitute_of(line@, gdefault) is None,
{
    let v = chars_of(line);
    parse_substitute_chars(v.as_slice(), gdefault)
}

/// Fills an empty `:s` pattern from the last search, as `:s//rep/` does; any other command, a
/// non-empty pattern, or no last search leaves `ex` as it was.
pub fn reuse_last_search(ex: &mut Ex, last_search: Option<&str>)
    ensures
        (match (*old(ex), last_search) {
            (Ex::Substitute(sp), Some(last)) => sp.pattern@.len() == 0,
            _ => false,
        }) ==> (match (*old(ex), *final(ex), last_search) {
            (Ex::Substitute(a), Ex::Substitute(b), Some(last)) => b@ == (SubSpecV { pattern: last@, ..a@ }),
            _ => false,
        }),
        !(match (*old(ex), last_search) {
            (Ex::Substitute(sp), Some(last)) => sp.pattern@.len() == 0,
            _ => false,
        }) ==> *final(ex) == *old(ex),
{
    if let Ex::Substitute(spec) = ex {
        if spec.pattern.as_str().is_empty() {
            if let Some(last) = last_search {
                spec.pattern = owned(last);
            }
        }
    }
}

} // verus!
