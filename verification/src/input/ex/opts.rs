//! `:set {option}`, `:[range]sort` and `:earlier` / `:later`.
use vstd::prelude::*;
use super::range::{
    find_char, find_char_from, first_prefix_from, parse_sub_range, parse_usize, parse_usize_chars, range_part, split_range,
    strip_first_verb, strip_verb, sub_range_of, verb_part, views_of, SubRange,
};
use super::{EditorOption, Ex, ExV};
use crate::text::string_of;
use crate::words::{
    contains_char, copy_range, end_non_ws, eq_lit, first_non_ws, is_whitespace, is_ws, parse_uint, parse_uint_max, trim,
    trim_of,
};

verus! {

/// How `:sort` orders the lines.
#[derive(Clone, PartialEq, Eq, Debug)]
pub struct SortOptions {
    /// `!`: descending.
    pub reverse: bool,
    /// `n`: by the first decimal number of each line.
    pub numeric: bool,
    /// `u`: drop repeated lines.
    pub unique: bool,
    /// `i`: ignore case.
    pub ignore_case: bool,
    /// `r` with a pattern: sort on the text the pattern matches.
    pub use_match: bool,
    /// `/pattern/`: sort on what follows (or, with `r`, on what matches) the pattern.
    pub pattern: Option<String>,
}

/// The view of `SortOptions`.
pub struct SortOptionsV {
    pub reverse: bool,
    pub numeric: bool,
    pub unique: bool,
    pub ignore_case: bool,
    pub use_match: bool,
    pub pattern: Option<Seq<char>>,
}

impl View for SortOptions {
    type V = SortOptionsV;

    open spec fn view(&self) -> SortOptionsV {
        SortOptionsV {
            reverse: self.reverse,
            numeric: self.numeric,
            unique: self.unique,
            ignore_case: self.ignore_case,
            use_match: self.use_match,
            pattern: match self.pattern {
                Some(p) => Some(p@),
                None => None,
            },
        }
    }
}

/// The index of the first whitespace character of `s` from `i` on.
pub open spec fn find_ws_from(s: Seq<char>, i: int) -> Option<int>
    decreases s.len() - i,
{
    if i < 0 || i >= s.len() {
        None
    } else if is_ws(s[i]) {
        Some(i)
    } else {
        find_ws_from(s, i + 1)
    }
}

proof fn lemma_find_ws_from(s: Seq<char>, i: int)
    requires
        0 <= i,
    ensures
        find_ws_from(s, i) matches Some(j) ==> i <= j < s.len(),
    decreases s.len() - i,
{
    if i < s.len() && !is_ws(s[i]) {
        lemma_find_ws_from(s, i + 1);
    }
}

/// The index of the first whitespace character of `s`.
fn find_ws(s: &[char]) -> (r: Option<usize>)
    ensures
        r matches Some(j) ==> find_ws_from(s@, 0) == Some(j as int),
        r matches Some(j) ==> j < s.len(),
        r is None ==> find_ws_from(s@, 0) is None,
{
    proof {
        lemma_find_ws_from(s@, 0);
    }
    let mut k: usize = 0;
    while k < s.len()
        invariant
            k <= s@.len(),
            find_ws_from(s@, k as int) == find_ws_from(s@, 0),
        decreases s.len() - k,
    {
        if is_whitespace(s[k]) {
            return Some(k);
        }
        k += 1;
    }
    None
}

/// What `str::parse::<u32>` gives.
pub open spec fn parse_u32(s: Seq<char>) -> Option<nat> {
    parse_uint(s, u32::MAX as nat)
}

/// `:earlier [N]` / `:ea` and `:later [N]` / `:lat`: the verb is what precedes the first
/// whitespace; the count is the rest, trimmed, and 1 when it is empty.
pub open spec fn time_travel_of(line: Seq<char>) -> Option<ExV> {
    let (verb, rest) = match find_ws_from(line, 0) {
        Some(i) => (line.take(i), line.skip(i + 1)),
        None => (line, Seq::<char>::empty()),
    };
    let n: Option<nat> = if trim_of(rest).len() == 0 { Some(1) } else { parse_u32(trim_of(rest)) };
    match n {
        None => None,
        Some(n) => if verb == "earlier"@ || verb == "ea"@ {
            Some(ExV::Earlier(n as u32))
        } else if verb == "later"@ || verb == "lat"@ {
            Some(ExV::Later(n as u32))
        } else {
            None
        },
    }
}

/// Parses `:earlier` / `:later` (see `time_travel_of`).
pub fn parse_time_travel(line: &[char]) -> (r: Option<Ex>)
    ensures
        r matches Some(e) ==> time_travel_of(line@) == Some(e@),
        r is None ==> time_travel_of(line@) is None,
{
    let (verb, rest): (Vec<char>, Vec<char>) = match find_ws(line) {
        Some(i) => (copy_range(line, 0, i), copy_range(line, i + 1, line.len())),
        None => (copy_range(line, 0, line.len()), Vec::new()),
    };
    assert(match find_ws_from(line@, 0) {
        Some(i) => verb@ =~= line@.take(i) && rest@ =~= line@.skip(i + 1),
        None => verb@ =~= line@ && rest@ =~= Seq::<char>::empty(),
    });
    let t = trim(rest.as_slice());
    let n: u32 = if t.len() == 0 {
        1
    } else {
        match parse_uint_max(t.as_slice(), u32::MAX as u64) {
            Some(v) => v as u32,
            None => return None,
        }
    };
    if eq_lit(verb.as_slice(), "earlier") || eq_lit(verb.as_slice(), "ea") {
        Some(Ex::Earlier(n))
    } else if eq_lit(verb.as_slice(), "later") || eq_lit(verb.as_slice(), "lat") {
        Some(Ex::Later(n))
    } else {
        None
    }
}

/// The numeric options of `:set {name}={n}`: `shiftwidth` / `sw` / `tabstop` / `ts` and
/// `textwidth` / `tw`.
pub open spec fn numeric_option_of(k: Seq<char>, n: nat) -> Option<EditorOption> {
    if k == "shiftwidth"@ || k == "sw"@ || k == "tabstop"@ || k == "ts"@ {
        Some(EditorOption::ShiftWidth(n as usize))
    } else if k == "textwidth"@ || k == "tw"@ {
        Some(EditorOption::TextWidth(n as usize))
    } else {
        None
    }
}

/// The boolean options of `:set`, each with a `no` form.
pub open spec fn flag_option_of(o: Seq<char>) -> Option<EditorOption> {
    if o == "ignorecase"@ || o == "ic"@ {
        Some(EditorOption::IgnoreCase(true))
    } else if o == "noignorecase"@ || o == "noic"@ {
        Some(EditorOption::IgnoreCase(false))
    } else if o == "smartcase"@ || o == "scs"@ {
        Some(EditorOption::SmartCase(true))
    } else if o == "nosmartcase"@ || o == "noscs"@ {
        Some(EditorOption::SmartCase(false))
    } else if o == "expandtab"@ || o == "et"@ {
        Some(EditorOption::ExpandTab(true))
    } else if o == "noexpandtab"@ || o == "noet"@ {
        Some(EditorOption::ExpandTab(false))
    } else {
        None
    }
}

/// The display toggles of `:set`, each with a `no` form.
pub open spec fn toggle_of(o: Seq<char>) -> Option<ExV> {
    if o == "hlsearch"@ || o == "hls"@ {
        Some(ExV::SetHlSearch(true))
    } else if o == "nohlsearch"@ || o == "nohls"@ {
        Some(ExV::SetHlSearch(false))
    } else if o == "incsearch"@ || o == "is"@ {
        Some(ExV::SetIncSearch(true))
    } else if o == "noincsearch"@ || o == "nois"@ {
        Some(ExV::SetIncSearch(false))
    } else if o == "fixeol"@ || o == "fixendofline"@ {
        Some(ExV::SetFixEol(true))
    } else if o == "nofixeol"@ || o == "nofixendofline"@ {
        Some(ExV::SetFixEol(false))
    } else {
        None
    }
}

/// `:set {option}` / `:se {option}`: a display toggle, a boolean option, or `{name}={n}`.
pub open spec fn set_of(line: Seq<char>) -> Option<ExV> {
    match strip_first_verb(line, seq!["set "@, "se "@]) {
        None => None,
        Some(o0) => {
            let o = trim_of(o0);
            match toggle_of(o) {
                Some(e) => Some(e),
                None => match flag_option_of(o) {
                    Some(opt) => Some(ExV::SetOption(opt)),
                    None => match find_char_from(o, '=', 0) {
                        None => None,
                        Some(i) => match parse_usize(trim_of(o.skip(i + 1))) {
                            None => None,
                            Some(n) => match numeric_option_of(trim_of(o.take(i)), n) {
                                Some(opt) => Some(ExV::SetOption(opt)),
                                None => None,
                            },
                        },
                    },
                },
            }
        },
    }
}

/// The display toggles of `:set` (see `toggle_of`).
fn parse_toggle(o: &[char]) -> (r: Option<Ex>)
    ensures
        r matches Some(e) ==> toggle_of(o@) == Some(e@),
        r is None ==> toggle_of(o@) is None,
{
    if eq_lit(o, "hlsearch") || eq_lit(o, "hls") {
        Some(Ex::SetHlSearch(true))
    } else if eq_lit(o, "nohlsearch") || eq_lit(o, "nohls") {
        Some(Ex::SetHlSearch(false))
    } else if eq_lit(o, "incsearch") || eq_lit(o, "is") {
        Some(Ex::SetIncSearch(true))
    } else if eq_lit(o, "noincsearch") || eq_lit(o, "nois") {
        Some(Ex::SetIncSearch(false))
    } else if eq_lit(o, "fixeol") || eq_lit(o, "fixendofline") {
        Some(Ex::SetFixEol(true))
    } else if eq_lit(o, "nofixeol") || eq_lit(o, "nofixendofline") {
        Some(Ex::SetFixEol(false))
    } else {
        None
    }
}

/// The boolean options of `:set` (see `flag_option_of`).
fn parse_flag_option(o: &[char]) -> (r: Option<EditorOption>)
    ensures
        r == flag_option_of(o@),
{
    if eq_lit(o, "ignorecase") || eq_lit(o, "ic") {
        Some(EditorOption::IgnoreCase(true))
    } else if eq_lit(o, "noignorecase") || eq_lit(o, "noic") {
        Some(EditorOption::IgnoreCase(false))
    } else if eq_lit(o, "smartcase") || eq_lit(o, "scs") {
        Some(EditorOption::SmartCase(true))
    } else if eq_lit(o, "nosmartcase") || eq_lit(o, "noscs") {
        Some(EditorOption::SmartCase(false))
    } else if eq_lit(o, "expandtab") || eq_lit(o, "et") {
        Some(EditorOption::ExpandTab(true))
    } else if eq_lit(o, "noexpandtab") || eq_lit(o, "noet") {
        Some(EditorOption::ExpandTab(false))
    } else {
        None
    }
}

/// Parses `:set {option}` (see `set_of`).
pub fn parse_set(line: &[char]) -> (r: Option<Ex>)
    ensures
        r matches Some(e) ==> set_of(line@) == Some(e@),
        r is None ==> set_of(line@) is None,
{
    let verbs = vec!["set ", "se "];
    assert(views_of(verbs@) =~= seq!["set "@, "se "@]);
    let o0 = match strip_verb(line, verbs.as_slice()) {
        Some(o) => o,
        None => return None,
    };
    let o = trim(o0.as_slice());
    match parse_toggle(o.as_slice()) {
        Some(e) => return Some(e),
        None => {},
    }
    match parse_flag_option(o.as_slice()) {
        Some(opt) => return Some(Ex::SetOption(opt)),
        None => {},
    }
    let i = match find_char(o.as_slice(), '=') {
        Some(i) => i,
        None => return None,
    };
    let k = copy_range(o.as_slice(), 0, i);
    let v = copy_range(o.as_slice(), i + 1, o.len());
    assert(k@ =~= o@.take(i as int));
    assert(v@ =~= o@.skip(i + 1));
    let vt = trim(v.as_slice());
    let n = match parse_usize_chars(vt.as_slice()) {
        Some(n) => n,
        None => return None,
    };
    let kt = trim(k.as_slice());
    let ks = kt.as_slice();
    if eq_lit(ks, "shiftwidth") || eq_lit(ks, "sw") || eq_lit(ks, "tabstop") || eq_lit(ks, "ts") {
        Some(Ex::SetOption(EditorOption::ShiftWidth(n)))
    } else if eq_lit(ks, "textwidth") || eq_lit(ks, "tw") {
        Some(Ex::SetOption(EditorOption::TextWidth(n)))
    } else {
        None
    }
}

/// The flags that `:sort` accepts (`b`, `x`, `l`, `o` are accepted and have no effect).
pub open spec fn is_sort_flag(c: char) -> bool {
    c == 'n' || c == 'u' || c == 'i' || c == 'r' || c == 'b' || c == 'x' || c == 'l' || c == 'o'
}

/// Whether `s` holds only sort flags.
pub open spec fn sort_flags_only(s: Seq<char>) -> bool {
    forall|k: int| 0 <= k < s.len() ==> #[trigger] is_sort_flag(s[k])
}

/// The flag run and the pattern of what follows `:sort[!]`: everything from the first `/` on is
/// the pattern, without one closing `/`, and an empty pattern counts as none.
pub open spec fn sort_args_of(rest: Seq<char>) -> (Seq<char>, Option<Seq<char>>) {
    match find_char_from(rest, '/', 0) {
        Some(i) => {
            let after = rest.skip(i + 1);
            let pat = if after.len() > 0 && after.last() == '/' { after.drop_last() } else { after };
            (rest.take(i), if pat.len() > 0 { Some(pat) } else { None })
        },
        None => (rest, None),
    }
}

/// `:[range]sort[!] [flags] [/pattern/]` (verb `sort` or `sor`); the whole file when no range is
/// given.
pub open spec fn sort_of(line: Seq<char>) -> Option<ExV> {
    match strip_first_verb(verb_part(line), seq!["sort"@, "sor"@]) {
        None => None,
        Some(r) => {
            let reverse = r.len() > 0 && r[0] == '!';
            let rest = if reverse { r.skip(1) } else { r };
            let (flag_str, pattern) = sort_args_of(rest);
            let flags = trim_of(flag_str);
            if !sort_flags_only(flags) {
                None
            } else {
                let range = if range_part(line).len() == 0 {
                    Some(SubRange::WholeFile)
                } else {
                    sub_range_of(range_part(line))
                };
                match range {
                    None => None,
                    Some(range) => Some(
                        ExV::Sort(
                            range,
                            SortOptionsV {
                                reverse,
                                numeric: flags.contains('n'),
                                unique: flags.contains('u'),
                                ignore_case: flags.contains('i'),
                                use_match: flags.contains('r') && pattern is Some,
                                pattern,
                            },
                        ),
                    ),
                }
            }
        },
    }
}

/// Whether every character of `s` is a sort flag.
fn all_sort_flags(s: &[char]) -> (r: bool)
    ensures
        r == sort_flags_only(s@),
{
    let mut k: usize = 0;
    while k < s.len()
        invariant
            k <= s@.len(),
            forall|j: int| 0 <= j < k ==> #[trigger] is_sort_flag(s@[j]),
        decreases s.len() - k,
    {
        let c = s[k];
        if !(c == 'n' || c == 'u' || c == 'i' || c == 'r' || c == 'b' || c == 'x' || c == 'l' || c == 'o') {
            assert(!is_sort_flag(s@[k as int]));
            return false;
        }
        k += 1;
    }
    true
}

/// Parses `:[range]sort` (see `sort_of`).
pub fn parse_sort(line: &[char]) -> (r: Option<Ex>)
    ensures
        r matches Some(e) ==> sort_of(line@) == Some(e@),
        r is None ==> sort_of(line@) is None,
{
    let (range_str, rest0) = split_range(line);
    let verbs = vec!["sort", "sor"];
    assert(views_of(verbs@) =~= seq!["sort"@, "sor"@]);
    let r = match strip_verb(rest0.as_slice(), verbs.as_slice()) {
        Some(r) => r,
        None => return None,
    };
    let reverse = r.len() > 0 && r[0] == '!';
    let rest = if reverse { copy_range(r.as_slice(), 1, r.len()) } else { r };
    assert(reverse ==> rest@ =~= r@.skip(1));
    let (flag_str, pattern): (Vec<char>, Option<Vec<char>>) = match find_char(rest.as_slice(), '/') {
        Some(i) => {
            let after = copy_range(rest.as_slice(), i + 1, rest.len());
            assert(after@ =~= rest@.skip(i + 1));
            let pat = if after.len() > 0 && after[after.len() - 1] == '/' {
                copy_range(after.as_slice(), 0, after.len() - 1)
            } else {
                after
            };
            assert(after@.len() > 0 && after@.last() == '/' ==> pat@ =~= after@.drop_last());
            let head = copy_range(rest.as_slice(), 0, i);
            assert(head@ =~= rest@.take(i as int));
            (head, if pat.len() > 0 { Some(pat) } else { None })
        },
        None => (rest, None),
    };
    assert(sort_args_of(rest@) == (flag_str@, match pattern { Some(p) => Some(p@), None => None }));
    let flags = trim(flag_str.as_slice());
    if !all_sort_flags(flags.as_slice()) {
        return None;
    }
    let range = if range_str.len() == 0 {
        SubRange::WholeFile
    } else {
        match parse_sub_range(range_str.as_slice()) {
            Some(r) => r,
            None => return None,
        }
    };
    let has_pattern = pattern.is_some();
    let pattern_s = match pattern {
        Some(p) => Some(string_of(p.as_slice())),
        None => None,
    };
    Some(
        Ex::Sort(
            range,
            SortOptions {
                reverse,
                numeric: contains_char(flags.as_slice(), 'n'),
                unique: contains_char(flags.as_slice(), 'u'),
                ignore_case: contains_char(flags.as_slice(), 'i'),
                use_match: contains_char(flags.as_slice(), 'r') && has_pattern,
                pattern: pattern_s,
            },
        ),
    )
}


/// The value a boolean option is set to.
pub open spec fn flag_value(opt: EditorOption) -> Option<bool> {
    match opt {
        EditorOption::IgnoreCase(b) => Some(b),
        EditorOption::SmartCase(b) => Some(b),
        EditorOption::ExpandTab(b) => Some(b),
        _ => None,
    }
}

/// The same option set to `b`.
pub open spec fn with_flag(opt: EditorOption, b: bool) -> EditorOption {
    match opt {
        EditorOption::IgnoreCase(_) => EditorOption::IgnoreCase(b),
        EditorOption::SmartCase(_) => EditorOption::SmartCase(b),
        EditorOption::ExpandTab(_) => EditorOption::ExpandTab(b),
        _ => opt,
    }
}

/// Law: `:set {o}` names a boolean option and turns it on exactly when `o` does not begin with
/// `no`; `:set no{o}` turns off the very option that `:set {o}` turns on; and every name that
/// turns an option off is `no` followed by a name that turns it on.
pub proof fn law_no_prefix_turns_an_option_off(o: Seq<char>)
    ensures
        flag_option_of(o) matches Some(opt) ==> flag_value(opt) == Some(!"no"@.is_prefix_of(o)),
        flag_option_of(o) matches Some(opt) ==> (flag_value(opt) == Some(true) ==> flag_option_of("no"@ + o)
            == Some(with_flag(opt, false))),
        flag_option_of(o) matches Some(opt) ==> (flag_value(opt) == Some(false) ==> o.len() >= 2
            && flag_option_of(o.skip(2)) == Some(with_flag(opt, true)) && o == "no"@ + o.skip(2)),
{
    reveal_strlit("no");
    reveal_strlit("ignorecase");
    reveal_strlit("ic");
    reveal_strlit("noignorecase");
    reveal_strlit("noic");
    reveal_strlit("smartcase");
    reveal_strlit("scs");
    reveal_strlit("nosmartcase");
    reveal_strlit("noscs");
    reveal_strlit("expandtab");
    reveal_strlit("et");
    reveal_strlit("noexpandtab");
    reveal_strlit("noet");
    assert("ic"@ != "et"@) by {
        assert("ic"@[0] != "et"@[0]);
    }
    assert("noic"@ != "noet"@) by {
        assert("noic"@[2] != "noet"@[2]);
    }
    assert("smartcase"@ != "expandtab"@) by {
        assert("smartcase"@[0] != "expandtab"@[0]);
    }
    assert("nosmartcase"@ != "noexpandtab"@) by {
        assert("nosmartcase"@[2] != "noexpandtab"@[2]);
    }
    if flag_option_of(o) is Some {
        if o == "ignorecase"@ || o == "ic"@ || o == "smartcase"@ || o == "scs"@ || o == "expandtab"@ || o
            == "et"@ {
            assert(!"no"@.is_prefix_of(o)) by {
                assert(o[0] != 'n');
                if "no"@.is_prefix_of(o) {
                    assert(o.subrange(0, 2)[0] == o[0]);
                    assert("no"@[0] == 'n');
                }
            }
            if o == "ignorecase"@ {
                assert("no"@ + o =~= "noignorecase"@);
            } else if o == "ic"@ {
                assert("no"@ + o =~= "noic"@);
            } else if o == "smartcase"@ {
                assert("no"@ + o =~= "nosmartcase"@);
            } else if o == "scs"@ {
                assert("no"@ + o =~= "noscs"@);
            } else if o == "expandtab"@ {
                assert("no"@ + o =~= "noexpandtab"@);
            } else {
                assert("no"@ + o =~= "noet"@);
            }
        } else {
            assert("no"@.is_prefix_of(o)) by {
                assert(o.take(2) =~= "no"@);
            }
            assert(o =~= "no"@ + o.skip(2));
            if o == "noignorecase"@ {
                assert(o.skip(2) =~= "ignorecase"@);
            } else if o == "noic"@ {
                assert(o.skip(2) =~= "ic"@);
            } else if o == "nosmartcase"@ {
                assert(o.skip(2) =~= "smartcase"@);
            } else if o == "noscs"@ {
                assert(o.skip(2) =~= "scs"@);
            } else if o == "noexpandtab"@ {
                assert(o.skip(2) =~= "expandtab"@);
            } else {
                assert(o.skip(2) =~= "et"@);
            }
        }
    }
}


/// A text without whitespace at either end is its own trim.
proof fn lemma_trim_unchanged(o: Seq<char>)
    requires
        o.len() > 0,
        !is_ws(o[0]),
        !is_ws(o[o.len() - 1]),
    ensures
        trim_of(o) == o,
{
    assert(first_non_ws(o, 0) == 0);
    assert(o.skip(0) =~= o);
    assert(end_non_ws(o, o.len() as int) == o.len());
    assert(o.take(o.len() as int) =~= o);
}

/// Law: `:set {o}` with a boolean option name `o` sets exactly the option that name gives, so
/// `:set no{o}` sets it off and `:set {o}` sets it on (see `law_no_prefix_turns_an_option_off`).
pub proof fn law_set_flag_option(o: Seq<char>)
    requires
        flag_option_of(o) is Some,
    ensures
        set_of("set "@ + o) == Some(ExV::SetOption(flag_option_of(o)->0)),
{
    reveal_strlit("set ");
    reveal_strlit("se ");
    reveal_strlit("ignorecase");
    reveal_strlit("ic");
    reveal_strlit("noignorecase");
    reveal_strlit("noic");
    reveal_strlit("smartcase");
    reveal_strlit("scs");
    reveal_strlit("nosmartcase");
    reveal_strlit("noscs");
    reveal_strlit("expandtab");
    reveal_strlit("et");
    reveal_strlit("noexpandtab");
    reveal_strlit("noet");
    reveal_strlit("hlsearch");
    reveal_strlit("hls");
    reveal_strlit("nohlsearch");
    reveal_strlit("nohls");
    reveal_strlit("incsearch");
    reveal_strlit("is");
    reveal_strlit("noincsearch");
    reveal_strlit("nois");
    reveal_strlit("fixeol");
    reveal_strlit("fixendofline");
    reveal_strlit("nofixeol");
    reveal_strlit("nofixendofline");
    let line = "set "@ + o;
    let verbs = seq!["set "@, "se "@];
    assert("set "@.is_prefix_of(line)) by {
        assert(line.subrange(0, 4) =~= "set "@);
    }
    assert(verbs[0] == "set "@);
    assert(first_prefix_from(line, verbs, 0) == Some(0int));
    assert(line.skip(4) =~= o);
    assert(strip_first_verb(line, verbs) == Some(o));
    // Each boolean option name is a run of letters, and none is a display toggle.
    assert("ic"@ != "et"@) by {
        assert("ic"@[0] != "et"@[0]);
    }
    assert("noic"@ != "noet"@) by {
        assert("noic"@[2] != "noet"@[2]);
    }
    assert("smartcase"@ != "expandtab"@) by {
        assert("smartcase"@[0] != "expandtab"@[0]);
    }
    assert("nosmartcase"@ != "noexpandtab"@) by {
        assert("nosmartcase"@[2] != "noexpandtab"@[2]);
    }
    assert(o[0] != ' ' && !is_ws(o[0]) && !is_ws(o[o.len() - 1]));
    lemma_trim_unchanged(o);
    assert(o != "hlsearch"@ && o != "hls"@ && o != "nohlsearch"@ && o != "nohls"@) by {
        if o.len() == 10 {
            assert(o[0] != "nohlsearch"@[0] || o[2] != "nohlsearch"@[2]);
        }
        if o.len() == 3 {
            assert(o[0] != "hls"@[0]);
        }
        if o.len() == 5 {
            assert(o[2] != "nohls"@[2]);
        }
        if o.len() == 8 {
            assert(false);
        }
    }
    assert(o != "incsearch"@ && o != "is"@ && o != "noincsearch"@ && o != "nois"@) by {
        if o.len() == 9 {
            assert(o[0] != "incsearch"@[0]);
        }
        if o.len() == 2 {
            assert(o[0] != "is"@[0] || o[1] != "is"@[1]);
        }
        if o.len() == 11 {
            assert(o[2] != "noincsearch"@[2]);
        }
        if o.len() == 4 {
            assert(o[2] != "nois"@[2] || o[3] != "nois"@[3]);
        }
    }
    assert(o != "fixeol"@ && o != "fixendofline"@ && o != "nofixeol"@ && o != "nofixendofline"@) by {
        if o.len() == 12 {
            assert(o[0] != "fixendofline"@[0]);
        }
    }
    assert(toggle_of(o) is None);
}


/// The value a display toggle is set to.
pub open spec fn toggle_value(e: ExV) -> Option<bool> {
    match e {
        ExV::SetHlSearch(b) => Some(b),
        ExV::SetIncSearch(b) => Some(b),
        ExV::SetFixEol(b) => Some(b),
        _ => None,
    }
}

/// The same toggle set to `b`.
pub open spec fn with_toggle(e: ExV, b: bool) -> ExV {
    match e {
        ExV::SetHlSearch(_) => ExV::SetHlSearch(b),
        ExV::SetIncSearch(_) => ExV::SetIncSearch(b),
        ExV::SetFixEol(_) => ExV::SetFixEol(b),
        _ => e,
    }
}

/// Law: `:set {o}` for a display toggle turns it on exactly when `o` does not begin with `no`;
/// `:set no{o}` turns off the very toggle that `:set {o}` turns on; and every name that turns a
/// toggle off is `no` followed by a name that turns it on.
pub proof fn law_no_prefix_turns_a_toggle_off(o: Seq<char>)
    ensures
        toggle_of(o) matches Some(e) ==> toggle_value(e) == Some(!"no"@.is_prefix_of(o)),
        toggle_of(o) matches Some(e) ==> (toggle_value(e) == Some(true) ==> toggle_of("no"@ + o) == Some(
            with_toggle(e, false),
        )),
        toggle_of(o) matches Some(e) ==> (toggle_value(e) == Some(false) ==> o.len() >= 2 && toggle_of(
            o.skip(2),
        ) == Some(with_toggle(e, true)) && o == "no"@ + o.skip(2)),
{
    reveal_strlit("no");
    reveal_strlit("hlsearch");
    reveal_strlit("hls");
    reveal_strlit("nohlsearch");
    reveal_strlit("nohls");
    reveal_strlit("incsearch");
    reveal_strlit("is");
    reveal_strlit("noincsearch");
    reveal_strlit("nois");
    reveal_strlit("fixeol");
    reveal_strlit("fixendofline");
    reveal_strlit("nofixeol");
    reveal_strlit("nofixendofline");
    assert("hlsearch"@ != "nofixeol"@) by {
        assert("hlsearch"@[0] != "nofixeol"@[0]);
    }
    if toggle_of(o) is Some {
        if o == "hlsearch"@ || o == "hls"@ || o == "incsearch"@ || o == "is"@ || o == "fixeol"@ || o == "fixendofline"@ {
            assert(!"no"@.is_prefix_of(o)) by {
                assert(o[0] != 'n');
                if "no"@.is_prefix_of(o) {
                    assert(o.subrange(0, 2)[0] == o[0]);
                    assert("no"@[0] == 'n');
                }
            }
            if o == "hlsearch"@ {
                assert("no"@ + o =~= "nohlsearch"@);
            } else if o == "hls"@ {
                assert("no"@ + o =~= "nohls"@);
            } else if o == "incsearch"@ {
                assert("no"@ + o =~= "noincsearch"@);
            } else if o == "is"@ {
                assert("no"@ + o =~= "nois"@);
            } else if o == "fixeol"@ {
                assert("no"@ + o =~= "nofixeol"@);
            } else if o == "fixendofline"@ {
                assert("no"@ + o =~= "nofixendofline"@);
            }
        } else {
            assert("no"@.is_prefix_of(o)) by {
                assert(o.take(2) =~= "no"@);
            }
            assert(o =~= "no"@ + o.skip(2));
            if o == "nohlsearch"@ {
                assert(o.skip(2) =~= "hlsearch"@);
            } else if o == "nohls"@ {
                assert(o.skip(2) =~= "hls"@);
            } else if o == "noincsearch"@ {
                assert(o.skip(2) =~= "incsearch"@);
            } else if o == "nois"@ {
                assert(o.skip(2) =~= "is"@);
            } else if o == "nofixeol"@ {
                assert(o.skip(2) =~= "fixeol"@);
            } else if o == "nofixendofline"@ {
                assert(o.skip(2) =~= "fixendofline"@);
            }
        }
    }
}


/// Law: `:set {o}` with a display toggle name `o` sets exactly the toggle that name gives (see
/// `law_no_prefix_turns_a_toggle_off`).
pub proof fn law_set_toggle(o: Seq<char>)
    requires
        toggle_of(o) is Some,
    ensures
        set_of("set "@ + o) == toggle_of(o),
{
    reveal_strlit("set ");
    reveal_strlit("se ");
    reveal_strlit("hlsearch");
    reveal_strlit("hls");
    reveal_strlit("nohlsearch");
    reveal_strlit("nohls");
    reveal_strlit("incsearch");
    reveal_strlit("is");
    reveal_strlit("noincsearch");
    reveal_strlit("nois");
    reveal_strlit("fixeol");
    reveal_strlit("fixendofline");
    reveal_strlit("nofixeol");
    reveal_strlit("nofixendofline");
    let line = "set "@ + o;
    let verbs = seq!["set "@, "se "@];
    assert("set "@.is_prefix_of(line)) by {
        assert(line.subrange(0, 4) =~= "set "@);
    }
    assert(verbs[0] == "set "@);
    assert(first_prefix_from(line, verbs, 0) == Some(0int));
    assert(line.skip(4) =~= o);
    assert(strip_first_verb(line, verbs) == Some(o));
    assert("hlsearch"@ != "nofixeol"@) by {
        assert("hlsearch"@[0] != "nofixeol"@[0]);
    }
    assert(!is_ws(o[0]) && !is_ws(o[o.len() - 1]));
    lemma_trim_unchanged(o);
}

} // verus!
