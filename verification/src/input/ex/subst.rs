//! `:s/pat/rep/flags`, its repeat forms (`:s`, `:s {flags}`, `:&`, `:&&`) and `:g/pat/cmd`.
use vstd::prelude::*;
use super::range::{
    parse_sub_range, range_part, split_range, strip_first_verb, strip_verb, sub_range_of, verb_part,
    views_of, SubRange,
};
use super::SubFlags;
use crate::text::{string_of, string_of_range};
use crate::words::{
    contains_char, copy_range, eq_lit, strip_prefix, trim, trim_of, trim_start, trim_start_of,
};

verus! {

/// A parsed `:[range]s/pat/rep/flags`.
#[derive(Clone, PartialEq, Eq, Debug)]
pub struct SubSpec {
    /// The lines the substitution acts on.
    pub range: SubRange,
    /// The search pattern (between the first two delimiters).
    pub pattern: String,
    /// The replacement (between the second and third delimiters).
    pub replacement: String,
    /// `g` (inverted when `gdefault` is on): replace every match on a line.
    pub global: bool,
    /// `i` gives `Some(true)`, `I` gives `Some(false)`, neither gives `None`.
    pub ignore_case: Option<bool>,
    /// `c`: confirm each substitution.
    pub confirm: bool,
    /// `n`: only count the matches.
    pub count_only: bool,
}

/// The view of a `SubSpec`: its texts as character sequences.
pub struct SubSpecV {
    pub range: SubRange,
    pub pattern: Seq<char>,
    pub replacement: Seq<char>,
    pub global: bool,
    pub ignore_case: Option<bool>,
    pub confirm: bool,
    pub count_only: bool,
}

impl View for SubSpec {
    type V = SubSpecV;

    open spec fn view(&self) -> SubSpecV {
        SubSpecV {
            range: self.range,
            pattern: self.pattern@,
            replacement: self.replacement@,
            global: self.global,
            ignore_case: self.ignore_case,
            confirm: self.confirm,
            count_only: self.count_only,
        }
    }
}

/// A command that `:g` runs on each marked line inside the editor core.
#[derive(Clone, PartialEq, Eq, Debug)]
pub enum GlobalCmd {
    /// `d`: delete the line.
    Delete,
    /// `s/pat/rep/flags` on the line.
    Substitute { pattern: String, replacement: String, flags: SubFlags },
}

/// The view of a `GlobalCmd`.
pub enum GlobalCmdV {
    Delete,
    Substitute { pattern: Seq<char>, replacement: Seq<char>, flags: SubFlags },
}

impl View for GlobalCmd {
    type V = GlobalCmdV;

    open spec fn view(&self) -> GlobalCmdV {
        match self {
            GlobalCmd::Delete => GlobalCmdV::Delete,
            GlobalCmd::Substitute { pattern, replacement, flags } => GlobalCmdV::Substitute {
                pattern: pattern@,
                replacement: replacement@,
                flags: *flags,
            },
        }
    }
}

/// What `:g/pat/…` runs on each marked line.
#[derive(Clone, PartialEq, Eq, Debug)]
pub enum GlobalPayload {
    /// A `d` or `s///` payload, run by the core.
    Core(GlobalCmd),
    /// `normal[!] {keys}`: the keys replayed in Normal mode on each line, kept verbatim.
    Normal { bang: bool, keys: String },
}

/// The view of a `GlobalPayload`.
pub enum GlobalPayloadV {
    Core(GlobalCmdV),
    Normal { bang: bool, keys: Seq<char> },
}

impl View for GlobalPayload {
    type V = GlobalPayloadV;

    open spec fn view(&self) -> GlobalPayloadV {
        match self {
            GlobalPayload::Core(c) => GlobalPayloadV::Core(c@),
            GlobalPayload::Normal { bang, keys } => GlobalPayloadV::Normal { bang: *bang, keys: keys@ },
        }
    }
}

/// A parsed `:[range]g/pat/cmd` (or `:g!`, `:v` for the lines that do not match).
#[derive(Clone, PartialEq, Eq, Debug)]
pub struct GlobalSpec {
    /// The lines considered (the whole file when no range is given).
    pub range: SubRange,
    /// The selecting pattern.
    pub pattern: String,
    /// Whether the command runs on the lines that do NOT match.
    pub negate: bool,
    /// The command run on each selected line.
    pub cmd: GlobalPayload,
}

/// The view of a `GlobalSpec`.
pub struct GlobalSpecV {
    pub range: SubRange,
    pub pattern: Seq<char>,
    pub negate: bool,
    pub cmd: GlobalPayloadV,
}

impl View for GlobalSpec {
    type V = GlobalSpecV;

    open spec fn view(&self) -> GlobalSpecV {
        GlobalSpecV { range: self.range, pattern: self.pattern@, negate: self.negate, cmd: self.cmd@ }
    }
}

/// ASCII punctuation, the characters that can delimit a pattern.
pub open spec fn is_ascii_punct(c: char) -> bool {
    ('!' <= c && c <= '/') || (':' <= c && c <= '@') || ('[' <= c && c <= '`') || ('{' <= c && c <= '~')
}

/// Whether `c` is ASCII punctuation.
pub fn is_ascii_punctuation(c: char) -> (r: bool)
    ensures
        r == is_ascii_punct(c),
{
    ('!' <= c && c <= '/') || (':' <= c && c <= '@') || ('[' <= c && c <= '`') || ('{' <= c && c <= '~')
}

/// The index of the first `d` at or after `i` that a backslash does not escape; a backslash
/// takes the character after it literally.
pub open spec fn unescaped_from(s: Seq<char>, d: char, i: int) -> Option<int>
    decreases s.len() + 1 - i,
{
    if i < 0 || i >= s.len() {
        None
    } else if s[i] == '\\' {
        unescaped_from(s, d, i + 2)
    } else if s[i] == d {
        Some(i)
    } else {
        unescaped_from(s, d, i + 1)
    }
}

/// `s` split at its first unescaped `d`: what precedes it and what follows it.
pub open spec fn split_unescaped_of(s: Seq<char>, d: char) -> Option<(Seq<char>, Seq<char>)> {
    match unescaped_from(s, d, 0) {
        Some(i) => Some((s.take(i), s.skip(i + 1))),
        None => None,
    }
}

proof fn lemma_unescaped_from(s: Seq<char>, d: char, i: int)
    requires
        0 <= i,
    ensures
        unescaped_from(s, d, i) matches Some(j) ==> i <= j < s.len() && s[j] == d,
    decreases s.len() + 1 - i,
{
    if i < s.len() {
        if s[i] == '\\' {
            lemma_unescaped_from(s, d, i + 2);
        } else if s[i] != d {
            lemma_unescaped_from(s, d, i + 1);
        }
    }
}

/// Splits `s` at its first unescaped `delim` (see `split_unescaped_of`).
pub fn split_first_unescaped(s: &[char], delim: char) -> (r: Option<(Vec<char>, Vec<char>)>)
    ensures
        r matches Some((a, b)) ==> split_unescaped_of(s@, delim) == Some((a@, b@)),
        r is None ==> split_unescaped_of(s@, delim) is None,
{
    proof {
        lemma_unescaped_from(s@, delim, 0);
    }
    let mut i: usize = 0;
    while i < s.len()
        invariant
            i <= s@.len(),
            unescaped_from(s@, delim, i as int) == unescaped_from(s@, delim, 0),
        decreases s.len() - i,
    {
        if s[i] == '\\' {
            let ghost old_i = i;
            if s.len() - i >= 2 {
                i += 2;
            } else {
                i = s.len();
                assert(unescaped_from(s@, delim, old_i + 2) is None);
            }
            assert(unescaped_from(s@, delim, old_i as int) == unescaped_from(s@, delim, old_i + 2));
        } else if s[i] == delim {
            let a = copy_range(s, 0, i);
            let b = copy_range(s, i + 1, s.len());
            assert(a@ =~= s@.take(i as int));
            assert(b@ =~= s@.skip(i + 1));
            return Some((a, b));
        } else {
            i += 1;
        }
    }
    None
}

/// The `i`/`I` case override of a flag run: `i` wins when both occur.
pub open spec fn case_flag_of(flags: Seq<char>) -> Option<bool> {
    if flags.contains('i') {
        Some(true)
    } else if flags.contains('I') {
        Some(false)
    } else {
        None
    }
}

/// The pattern, replacement and flag run of a substitute body (what follows the first
/// delimiter): up to three parts split on unescaped delimiters, the last taken whole.
pub open spec fn sub_parts_of(body: Seq<char>, d: char) -> (Seq<char>, Seq<char>, Seq<char>) {
    match split_unescaped_of(body, d) {
        None => (body, Seq::empty(), Seq::empty()),
        Some((p1, r1)) => match split_unescaped_of(r1, d) {
            None => (p1, r1, Seq::empty()),
            Some((p2, r2)) => (p1, p2, r2),
        },
    }
}

/// `:[range]s/pat/rep/flags` (verb `s` or `substitute`, any ASCII punctuation as delimiter);
/// `gdefault` inverts the `g` flag.
pub open spec fn substitute_of(line: Seq<char>, gdefault: bool) -> Option<SubSpecV> {
    match strip_first_verb(verb_part(line), seq!["substitute"@, "s"@]) {
        None => None,
        Some(rest) => if rest.len() == 0 || !is_ascii_punct(rest[0]) {
            None
        } else {
            let (pattern, replacement, flags) = sub_parts_of(rest.skip(1), rest[0]);
            match sub_range_of(range_part(line)) {
                None => None,
                Some(range) => Some(
                    SubSpecV {
                        range,
                        pattern,
                        replacement,
                        global: flags.contains('g') != gdefault,
                        ignore_case: case_flag_of(flags),
                        confirm: flags.contains('c'),
                        count_only: flags.contains('n'),
                    },
                ),
            }
        },
    }
}

/// The `i`/`I` case override of a flag run.
fn case_flag(flags: &[char]) -> (r: Option<bool>)
    ensures
        r == case_flag_of(flags@),
{
    if contains_char(flags, 'i') {
        Some(true)
    } else if contains_char(flags, 'I') {
        Some(false)
    } else {
        None
    }
}

/// Parses `:[range]s/pat/rep/flags` (see `substitute_of`).
pub fn parse_substitute_chars(line: &[char], gdefault: bool) -> (r: Option<SubSpec>)
    ensures
        r matches Some(s) ==> substitute_of(line@, gdefault) == Some(s@),
        r is None ==> substitute_of(line@, gdefault) is None,
{
    let (range_str, rest0) = split_range(line);
    let verbs = vec!["substitute", "s"];
    assert(views_of(verbs@) =~= seq!["substitute"@, "s"@]);
    let rest = match strip_verb(rest0.as_slice(), verbs.as_slice()) {
        Some(r) => r,
        None => return None,
    };
    if rest.len() == 0 || !is_ascii_punctuation(rest[0]) {
        return None;
    }
    let delim = rest[0];
    let body = copy_range(rest.as_slice(), 1, rest.len());
    assert(body@ =~= rest@.skip(1));
    let (pattern, replacement, flags): (Vec<char>, Vec<char>, Vec<char>) = match split_first_unescaped(
        body.as_slice(),
        delim,
    ) {
        None => (body, Vec::new(), Vec::new()),
        Some((p1, r1)) => match split_first_unescaped(r1.as_slice(), delim) {
            None => (p1, r1, Vec::new()),
            Some((p2, r2)) => (p1, p2, r2),
        },
    };
    assert(sub_parts_of(body@, delim) == (pattern@, replacement@, flags@));
    let range = match parse_sub_range(range_str.as_slice()) {
        Some(r) => r,
        None => return None,
    };
    let g = contains_char(flags.as_slice(), 'g');
    Some(
        SubSpec {
            range,
            pattern: string_of(pattern.as_slice()),
            replacement: string_of(replacement.as_slice()),
            global: g != gdefault,
            ignore_case: case_flag(flags.as_slice()),
            confirm: contains_char(flags.as_slice(), 'c'),
            count_only: contains_char(flags.as_slice(), 'n'),
        },
    )
}

/// The flags that a repeated substitute honours: `g`, `i`, `I`.
pub open spec fn is_repeat_flag(c: char) -> bool {
    c == 'g' || c == 'i' || c == 'I'
}

/// The flags of a `:s {flags}` run; `gdefault` inverts `g`.
pub open spec fn repeat_flags_of(flags: Seq<char>, gdefault: bool) -> SubFlags {
    SubFlags { global: flags.contains('g') != gdefault, ignore_case: case_flag_of(flags) }
}

/// The repeat forms of the last substitute: `:[range]&` and a bare `:[range]s` drop its flags
/// (`Some` of the empty flags), `:[range]&&` (two or more `&`) keeps them (`None`), and
/// `:[range]s {flags}` (only `g`, `i`, `I` after the verb) replaces them.
pub open spec fn repeat_substitute_of(line: Seq<char>, gdefault: bool) -> Option<(SubRange, Option<SubFlags>)> {
    let v = trim_of(verb_part(line));
    if v.len() > 0 && (forall|k: int| 0 <= k < v.len() ==> #[trigger] v[k] == '&') {
        match sub_range_of(range_part(line)) {
            Some(r) => Some(
                (r, if v.len() == 1 { Some(SubFlags { global: false, ignore_case: None }) } else { None }),
            ),
            None => None,
        }
    } else {
        match strip_first_verb(verb_part(line), seq!["substitute"@, "s"@]) {
            None => None,
            Some(a) => {
                let f = trim_of(a);
                if forall|k: int| 0 <= k < f.len() ==> #[trigger] is_repeat_flag(f[k]) {
                    match sub_range_of(range_part(line)) {
                        Some(r) => Some((r, Some(repeat_flags_of(f, gdefault)))),
                        None => None,
                    }
                } else {
                    None
                }
            },
        }
    }
}

/// Whether every character of `s` is `c`.
fn all_are(s: &[char], c: char) -> (r: bool)
    ensures
        r == forall|k: int| 0 <= k < s@.len() ==> #[trigger] s@[k] == c,
{
    let mut k: usize = 0;
    while k < s.len()
        invariant
            k <= s@.len(),
            forall|j: int| 0 <= j < k ==> #[trigger] s@[j] == c,
        decreases s.len() - k,
    {
        if s[k] != c {
            return false;
        }
        k += 1;
    }
    true
}

/// Whether every character of `s` is a repeat flag.
fn all_repeat_flags(s: &[char]) -> (r: bool)
    ensures
        r == forall|k: int| 0 <= k < s@.len() ==> #[trigger] is_repeat_flag(s@[k]),
{
    let mut k: usize = 0;
    while k < s.len()
        invariant
            k <= s@.len(),
            forall|j: int| 0 <= j < k ==> #[trigger] is_repeat_flag(s@[j]),
        decreases s.len() - k,
    {
        if !(s[k] == 'g' || s[k] == 'i' || s[k] == 'I') {
            assert(!is_repeat_flag(s@[k as int]));
            return false;
        }
        k += 1;
    }
    true
}

/// Parses the repeat forms of the last substitute (see `repeat_substitute_of`).
pub fn parse_repeat_substitute(line: &[char], gdefault: bool) -> (r: Option<(SubRange, Option<SubFlags>)>)
    ensures
        r == repeat_substitute_of(line@, gdefault),
{
    let (range_str, rest0) = split_range(line);
    let v = trim(rest0.as_slice());
    if v.len() > 0 && all_are(v.as_slice(), '&') {
        return match parse_sub_range(range_str.as_slice()) {
            Some(r) => Some(
                (r, if v.len() == 1 { Some(SubFlags { global: false, ignore_case: None }) } else { None }),
            ),
            None => None,
        };
    }
    let verbs = vec!["substitute", "s"];
    assert(views_of(verbs@) =~= seq!["substitute"@, "s"@]);
    let a = match strip_verb(rest0.as_slice(), verbs.as_slice()) {
        Some(a) => a,
        None => return None,
    };
    let f = trim(a.as_slice());
    if !all_repeat_flags(f.as_slice()) {
        return None;
    }
    match parse_sub_range(range_str.as_slice()) {
        Some(r) => {
            let g = contains_char(f.as_slice(), 'g');
            Some((r, Some(SubFlags { global: g != gdefault, ignore_case: case_flag(f.as_slice()) })))
        },
        None => None,
    }
}

/// The `:g` verbs, longest first: `vglobal`, `global`, `g!`, `g`, `v`, with whether the selection
/// is inverted.
pub open spec fn global_verb_of(rest: Seq<char>) -> Option<(Seq<char>, bool)> {
    if "vglobal"@.is_prefix_of(rest) {
        Some((rest.skip("vglobal"@.len() as int), true))
    } else if "global"@.is_prefix_of(rest) {
        Some((rest.skip("global"@.len() as int), false))
    } else if "g!"@.is_prefix_of(rest) {
        Some((rest.skip("g!"@.len() as int), true))
    } else if "g"@.is_prefix_of(rest) {
        Some((rest.skip("g"@.len() as int), false))
    } else if "v"@.is_prefix_of(rest) {
        Some((rest.skip("v"@.len() as int), true))
    } else {
        None
    }
}

/// `:g/pat/normal[!] {keys}`: one of `normal`, `norma`, `norm` after leading whitespace, an
/// optional `!`, then exactly one delimiting space before the verbatim keys.
pub open spec fn global_normal_of(cmd: Seq<char>) -> Option<GlobalPayloadV> {
    match strip_first_verb(trim_start_of(cmd), seq!["normal"@, "norma"@, "norm"@]) {
        None => None,
        Some(r) => {
            let bang = r.len() > 0 && r[0] == '!';
            let r2 = if bang { r.skip(1) } else { r };
            if r2.len() > 0 && r2[0] == ' ' {
                Some(GlobalPayloadV::Normal { bang, keys: r2.skip(1) })
            } else {
                None
            }
        },
    }
}

/// The command after `:g/pat/`: a `normal` payload, `d`/`delete`, or a `s///` substitute.
pub open spec fn global_cmd_of(cmd: Seq<char>) -> Option<GlobalPayloadV> {
    match global_normal_of(cmd) {
        Some(p) => Some(p),
        None => {
            let t = trim_of(cmd);
            if t == "d"@ || t == "delete"@ {
                Some(GlobalPayloadV::Core(GlobalCmdV::Delete))
            } else {
                match substitute_of(t, false) {
                    Some(sp) => Some(
                        GlobalPayloadV::Core(
                            GlobalCmdV::Substitute {
                                pattern: sp.pattern,
                                replacement: sp.replacement,
                                flags: SubFlags { global: sp.global, ignore_case: sp.ignore_case },
                            },
                        ),
                    ),
                    None => None,
                }
            }
        },
    }
}

/// `:[range]g/pat/cmd`, `:g!`, `:v`: the whole file when no range is given.
pub open spec fn global_of(line: Seq<char>) -> Option<GlobalSpecV> {
    match global_verb_of(verb_part(line)) {
        None => None,
        Some((rest, negate)) => if rest.len() == 0 || !is_ascii_punct(rest[0]) {
            None
        } else {
            match split_unescaped_of(rest.skip(1), rest[0]) {
                None => None,
                Some((pattern, cmd_str)) => match global_cmd_of(cmd_str) {
                    None => None,
                    Some(cmd) => {
                        let range = if range_part(line).len() == 0 {
                            Some(SubRange::WholeFile)
                        } else {
                            sub_range_of(range_part(line))
                        };
                        match range {
                            Some(range) => Some(GlobalSpecV { range, pattern, negate, cmd }),
                            None => None,
                        }
                    },
                },
            }
        },
    }
}

/// Strips a `:g` verb (see `global_verb_of`).
fn strip_global_verb(rest: &[char]) -> (r: Option<(Vec<char>, bool)>)
    ensures
        r matches Some((v, n)) ==> global_verb_of(rest@) == Some((v@, n)),
        r is None ==> global_verb_of(rest@) is None,
{
    match strip_prefix(rest, "vglobal") {
        Some(r) => return Some((r, true)),
        None => {},
    }
    match strip_prefix(rest, "global") {
        Some(r) => return Some((r, false)),
        None => {},
    }
    match strip_prefix(rest, "g!") {
        Some(r) => return Some((r, true)),
        None => {},
    }
    match strip_prefix(rest, "g") {
        Some(r) => return Some((r, false)),
        None => {},
    }
    match strip_prefix(rest, "v") {
        Some(r) => Some((r, true)),
        None => None,
    }
}

/// Parses a `normal` payload of `:g` (see `global_normal_of`).
fn parse_global_normal(cmd: &[char]) -> (r: Option<GlobalPayload>)
    ensures
        r matches Some(p) ==> global_normal_of(cmd@) == Some(p@),
        r is None ==> global_normal_of(cmd@) is None,
{
    let t = trim_start(cmd);
    let verbs = vec!["normal", "norma", "norm"];
    assert(views_of(verbs@) =~= seq!["normal"@, "norma"@, "norm"@]);
    let r = match strip_verb(t.as_slice(), verbs.as_slice()) {
        Some(r) => r,
        None => return None,
    };
    let bang = r.len() > 0 && r[0] == '!';
    let r2 = if bang { copy_range(r.as_slice(), 1, r.len()) } else { r };
    assert(bang ==> r2@ =~= r@.skip(1));
    if r2.len() > 0 && r2[0] == ' ' {
        let keys = string_of_range(r2.as_slice(), 1, r2.len());
        assert(keys@ =~= r2@.skip(1));
        Some(GlobalPayload::Normal { bang, keys })
    } else {
        None
    }
}

/// Parses the command after `:g/pat/` (see `global_cmd_of`).
fn parse_global_cmd(cmd: &[char]) -> (r: Option<GlobalPayload>)
    ensures
        r matches Some(p) ==> global_cmd_of(cmd@) == Some(p@),
        r is None ==> global_cmd_of(cmd@) is None,
{
    match parse_global_normal(cmd) {
        Some(p) => return Some(p),
        None => {},
    }
    let t = trim(cmd);
    if eq_lit(t.as_slice(), "d") || eq_lit(t.as_slice(), "delete") {
        return Some(GlobalPayload::Core(GlobalCmd::Delete));
    }
    match parse_substitute_chars(t.as_slice(), false) {
        Some(sp) => Some(
            GlobalPayload::Core(
                GlobalCmd::Substitute {
                    pattern: sp.pattern,
                    replacement: sp.replacement,
                    flags: SubFlags { global: sp.global, ignore_case: sp.ignore_case },
                },
            ),
        ),
        None => None,
    }
}

/// Parses `:[range]g/pat/cmd` (see `global_of`).
pub fn parse_global_chars(line: &[char]) -> (r: Option<GlobalSpec>)
    ensures
        r matches Some(g) ==> global_of(line@) == Some(g@),
        r is None ==> global_of(line@) is None,
{
    let (range_str, rest0) = split_range(line);
    let (rest, negate) = match strip_global_verb(rest0.as_slice()) {
        Some(p) => p,
        None => return None,
    };
    if rest.len() == 0 || !is_ascii_punctuation(rest[0]) {
        return None;
    }
    let delim = rest[0];
    let body = copy_range(rest.as_slice(), 1, rest.len());
    assert(body@ =~= rest@.skip(1));
    let (pattern, cmd_str) = match split_first_unescaped(body.as_slice(), delim) {
        Some(p) => p,
        None => return None,
    };
    let cmd = match parse_global_cmd(cmd_str.as_slice()) {
        Some(c) => c,
        None => return None,
    };
    let range = if range_str.len() == 0 {
        SubRange::WholeFile
    } else {
        match parse_sub_range(range_str.as_slice()) {
            Some(r) => r,
            None => return None,
        }
    };
    Some(GlobalSpec { range, pattern: string_of(pattern.as_slice()), negate, cmd })
}

} // verus!
