//! Line ranges and line addresses of ex commands, and the range-prefixed verbs
//! (`:d`, `:y`, `:j`, `:m`, `:t`, `:>`, `:<`, `:put`).
use vstd::prelude::*;
use crate::words::{
    copy_range, eq_lit, is_whitespace, is_ws, parse_uint, parse_uint_max, strip_prefix,
    trim, trim_of,
};

verus! {

/// The lines an ex command acts on.
#[derive(Clone, Copy, PartialEq, Eq, Debug, Structural)]
pub enum SubRange {
    /// No range, or `.`: the cursor's line.
    CurrentLine,
    /// `%`: every line.
    WholeFile,
    /// `N` or `N,M`: the inclusive span, lower bound first.
    Lines(usize, usize),
}

/// A destination address of `:m`, `:t`, `:put` and `:read`.
#[derive(Clone, Copy, PartialEq, Eq, Debug, Structural)]
pub enum LineAddr {
    /// `N`: after line `N` (`0` is the very top).
    Line(usize),
    /// `$`: after the last line.
    Last,
    /// `.`: after the cursor's line.
    Current,
}

/// A character of a range prefix: `[0-9,%.$]`.
pub open spec fn is_range_char(c: char) -> bool {
    ('0' <= c && c <= '9') || c == ',' || c == '%' || c == '.' || c == '$'
}

/// The first index from `i` on whose character is not a range character (or the length).
pub open spec fn range_end_from(s: Seq<char>, i: int) -> int
    decreases s.len() - i,
{
    if i < 0 || i >= s.len() {
        s.len() as int
    } else if is_range_char(s[i]) {
        range_end_from(s, i + 1)
    } else {
        i
    }
}

/// The length of the range prefix of `s`.
pub open spec fn range_end(s: Seq<char>) -> int {
    range_end_from(s, 0)
}

proof fn lemma_range_end_from(s: Seq<char>, i: int)
    requires
        0 <= i <= s.len(),
    ensures
        i <= range_end_from(s, i) <= s.len(),
    decreases s.len() - i,
{
    if i < s.len() && is_range_char(s[i]) {
        lemma_range_end_from(s, i + 1);
    }
}

/// The length of the range prefix of `s`.
pub fn range_prefix_len(s: &[char]) -> (n: usize)
    ensures
        n == range_end(s@),
        n <= s@.len(),
{
    proof {
        lemma_range_end_from(s@, 0);
    }
    let mut k: usize = 0;
    while k < s.len() && (('0' <= s[k] && s[k] <= '9') || s[k] == ',' || s[k] == '%' || s[k] == '.'
        || s[k] == '$')
        invariant
            k <= s@.len(),
            range_end_from(s@, k as int) == range_end_from(s@, 0),
        decreases s.len() - k,
    {
        k += 1;
    }
    k
}

/// What `str::parse::<usize>` gives.
pub open spec fn parse_usize(s: Seq<char>) -> Option<nat> {
    parse_uint(s, usize::MAX as nat)
}

/// `str::parse::<usize>` on characters.
pub fn parse_usize_chars(s: &[char]) -> (r: Option<usize>)
    ensures
        r matches Some(v) ==> parse_usize(s@) == Some(v as nat),
        r is None ==> parse_usize(s@) is None,
{
    match parse_uint_max(s, usize::MAX as u64) {
        Some(v) => Some(v as usize),
        None => None,
    }
}

/// The index of the first `c` in `s` from `i` on, if any.
pub open spec fn find_char_from(s: Seq<char>, c: char, i: int) -> Option<int>
    decreases s.len() - i,
{
    if i < 0 || i >= s.len() {
        None
    } else if s[i] == c {
        Some(i)
    } else {
        find_char_from(s, c, i + 1)
    }
}

proof fn lemma_find_char_from(s: Seq<char>, c: char, i: int)
    requires
        0 <= i,
    ensures
        find_char_from(s, c, i) matches Some(j) ==> i <= j < s.len() && s[j] == c,
    decreases s.len() - i,
{
    if i < s.len() && s[i] != c {
        lemma_find_char_from(s, c, i + 1);
    }
}

/// The index of the first `c` in `s`.
pub fn find_char(s: &[char], c: char) -> (r: Option<usize>)
    ensures
        r matches Some(j) ==> find_char_from(s@, c, 0) == Some(j as int),
        r is None ==> find_char_from(s@, c, 0) is None,
        r matches Some(j) ==> j < s.len() && s@[j as int] == c,
{
    proof {
        lemma_find_char_from(s@, c, 0);
    }
    let mut k: usize = 0;
    while k < s.len()
        invariant
            k <= s@.len(),
            find_char_from(s@, c, k as int) == find_char_from(s@, c, 0),
        decreases s.len() - k,
    {
        if s[k] == c {
            return Some(k);
        }
        k += 1;
    }
    None
}

/// The range that a `:s`-style range prefix denotes: empty or `.` is the cursor's line, `%` the
/// whole file, `N` that line, `N,M` the span with its ends ordered; anything else is refused.
pub open spec fn sub_range_of(s: Seq<char>) -> Option<SubRange> {
    let t = trim_of(s);
    if t.len() == 0 || t == seq!['.'] {
        Some(SubRange::CurrentLine)
    } else if t == seq!['%'] {
        Some(SubRange::WholeFile)
    } else {
        match find_char_from(t, ',', 0) {
            Some(i) => {
                match (parse_usize(trim_of(t.take(i))), parse_usize(trim_of(t.skip(i + 1)))) {
                    (Some(a), Some(b)) => if a <= b {
                        Some(SubRange::Lines(a as usize, b as usize))
                    } else {
                        Some(SubRange::Lines(b as usize, a as usize))
                    },
                    _ => None,
                }
            },
            None => match parse_usize(t) {
                Some(n) => Some(SubRange::Lines(n as usize, n as usize)),
                None => None,
            },
        }
    }
}

/// Parses a line-range prefix (see `sub_range_of`).
pub fn parse_sub_range(s: &[char]) -> (r: Option<SubRange>)
    ensures
        r == sub_range_of(s@),
{
    let t = trim(s);
    if t.len() == 0 || (t.len() == 1 && t[0] == '.') {
        assert(t@.len() == 1 ==> t@ =~= seq!['.'] || t@[0] != '.');
        return Some(SubRange::CurrentLine);
    }
    assert(t@.len() != 1 || t@[0] != '.' ==> t@ != seq!['.']);
    if t.len() == 1 && t[0] == '%' {
        assert(t@ =~= seq!['%']);
        return Some(SubRange::WholeFile);
    }
    assert(t@.len() != 1 || t@[0] != '%' ==> t@ != seq!['%']);
    match find_char(t.as_slice(), ',') {
        Some(i) => {
            let a_part = copy_range(t.as_slice(), 0, i);
            let b_part = copy_range(t.as_slice(), i + 1, t.len());
            assert(a_part@ =~= t@.take(i as int));
            assert(b_part@ =~= t@.skip(i + 1));
            let a_t = trim(a_part.as_slice());
            let b_t = trim(b_part.as_slice());
            let a = parse_usize_chars(a_t.as_slice());
            let b = parse_usize_chars(b_t.as_slice());
            match (a, b) {
                (Some(a), Some(b)) => if a <= b {
                    Some(SubRange::Lines(a, b))
                } else {
                    Some(SubRange::Lines(b, a))
                },
                _ => None,
            }
        },
        None => match parse_usize_chars(t.as_slice()) {
            Some(n) => Some(SubRange::Lines(n, n)),
            None => None,
        },
    }
}

/// The views of a list of literals.
pub open spec fn views_of(vs: Seq<&str>) -> Seq<Seq<char>> {
    vs.map_values(|v: &str| v@)
}

/// The destination address of `:m`, `:t`, `:put` and `:read` (already trimmed): `$`, `.` or a
/// line number; anything else, the empty text included, is refused.
pub open spec fn line_addr_of(s: Seq<char>) -> Option<LineAddr> {
    if s.len() == 0 {
        None
    } else if s == seq!['$'] {
        Some(LineAddr::Last)
    } else if s == seq!['.'] {
        Some(LineAddr::Current)
    } else {
        match parse_usize(s) {
            Some(n) => Some(LineAddr::Line(n as usize)),
            None => None,
        }
    }
}

/// Parses a destination address (see `line_addr_of`).
pub fn parse_line_addr(s: &[char]) -> (r: Option<LineAddr>)
    ensures
        r == line_addr_of(s@),
{
    if s.len() == 0 {
        return None;
    }
    if s.len() == 1 && s[0] == '$' {
        assert(s@ =~= seq!['$']);
        return Some(LineAddr::Last);
    }
    assert(s@.len() != 1 || s@[0] != '$' ==> s@ != seq!['$']);
    if s.len() == 1 && s[0] == '.' {
        assert(s@ =~= seq!['.']);
        return Some(LineAddr::Current);
    }
    assert(s@.len() != 1 || s@[0] != '.' ==> s@ != seq!['.']);
    match parse_usize_chars(s) {
        Some(n) => Some(LineAddr::Line(n)),
        None => None,
    }
}

/// `s` split after its range prefix.
pub open spec fn range_part(s: Seq<char>) -> Seq<char> {
    s.take(range_end(s))
}

/// What follows the range prefix of `s`.
pub open spec fn verb_part(s: Seq<char>) -> Seq<char> {
    s.skip(range_end(s))
}

/// Splits `s` after its range prefix.
pub fn split_range(s: &[char]) -> (r: (Vec<char>, Vec<char>))
    ensures
        r.0@ == range_part(s@),
        r.1@ == verb_part(s@),
{
    let n = range_prefix_len(s);
    let a = copy_range(s, 0, n);
    let b = copy_range(s, n, s.len());
    assert(a@ =~= range_part(s@));
    assert(b@ =~= verb_part(s@));
    (a, b)
}

/// `:[range]verb`, where the trimmed verb is one of `verbs`: the parsed range.
pub open spec fn range_verb_of(line: Seq<char>, verbs: Seq<Seq<char>>) -> Option<SubRange> {
    if verbs.contains(trim_of(verb_part(line))) {
        sub_range_of(range_part(line))
    } else {
        None
    }
}

/// Whether `s` equals one of `verbs`.
fn is_one_of(s: &[char], verbs: &[&str]) -> (r: bool)
    ensures
        r == views_of(verbs@).contains(s@),
{
    let mut k: usize = 0;
    while k < verbs.len()
        invariant
            k <= verbs@.len(),
            forall|j: int| 0 <= j < k ==> views_of(verbs@)[j] != s@,
        decreases verbs.len() - k,
    {
        if eq_lit(s, verbs[k]) {
            assert(views_of(verbs@)[k as int] == s@);
            return true;
        }
        k += 1;
    }
    false
}

/// Parses `:[range]verb` for one of `verbs` (`:d`, `:y`, ...).
pub fn parse_range_verb(line: &[char], verbs: &[&str]) -> (r: Option<SubRange>)
    ensures
        r == range_verb_of(line@, views_of(verbs@)),
{
    let (range_str, verb) = split_range(line);
    let v = trim(verb.as_slice());
    if is_one_of(v.as_slice(), verbs) {
        parse_sub_range(range_str.as_slice())
    } else {
        None
    }
}

/// The index of the first of `verbs` from `i` on that is a prefix of `s`.
pub open spec fn first_prefix_from(s: Seq<char>, verbs: Seq<Seq<char>>, i: int) -> Option<int>
    decreases verbs.len() - i,
{
    if i < 0 || i >= verbs.len() {
        None
    } else if verbs[i].is_prefix_of(s) {
        Some(i)
    } else {
        first_prefix_from(s, verbs, i + 1)
    }
}

/// `s` without the first of `verbs` that it begins with.
pub open spec fn strip_first_verb(s: Seq<char>, verbs: Seq<Seq<char>>) -> Option<Seq<char>> {
    match first_prefix_from(s, verbs, 0) {
        Some(i) => Some(s.skip(verbs[i].len() as int)),
        None => None,
    }
}

proof fn lemma_first_prefix_from(s: Seq<char>, verbs: Seq<Seq<char>>, i: int)
    requires
        0 <= i,
    ensures
        first_prefix_from(s, verbs, i) matches Some(j) ==> i <= j < verbs.len() && verbs[j].is_prefix_of(s),
    decreases verbs.len() - i,
{
    if i < verbs.len() && !verbs[i].is_prefix_of(s) {
        lemma_first_prefix_from(s, verbs, i + 1);
    }
}

/// `s` without the first of `verbs` that it begins with.
pub fn strip_verb(s: &[char], verbs: &[&str]) -> (r: Option<Vec<char>>)
    ensures
        r matches Some(v) ==> strip_first_verb(s@, views_of(verbs@)) == Some(v@),
        r is None ==> strip_first_verb(s@, views_of(verbs@)) is None,
{
    proof {
        lemma_first_prefix_from(s@, views_of(verbs@), 0);
    }
    let mut k: usize = 0;
    while k < verbs.len()
        invariant
            k <= verbs@.len(),
            first_prefix_from(s@, views_of(verbs@), k as int) == first_prefix_from(s@, views_of(verbs@), 0),
        decreases verbs.len() - k,
    {
        match strip_prefix(s, verbs[k]) {
            Some(v) => {
                return Some(v);
            },
            None => {},
        }
        k += 1;
    }
    None
}

/// `:[range]verb {addr}` for one of `verbs` (longest first): the range and the destination.
pub open spec fn range_verb_dest_of(line: Seq<char>, verbs: Seq<Seq<char>>) -> Option<(SubRange, LineAddr)> {
    match strip_first_verb(verb_part(line), verbs) {
        Some(a) => match (line_addr_of(trim_of(a)), sub_range_of(range_part(line))) {
            (Some(d), Some(r)) => Some((r, d)),
            _ => None,
        },
        None => None,
    }
}

/// Parses `:[range]m {addr}` / `:[range]t {addr}` (see `range_verb_dest_of`).
pub fn parse_range_verb_dest(line: &[char], verbs: &[&str]) -> (r: Option<(SubRange, LineAddr)>)
    ensures
        r == range_verb_dest_of(line@, views_of(verbs@)),
{
    let (range_str, rest) = split_range(line);
    let addr_str = match strip_verb(rest.as_slice(), verbs) {
        Some(a) => a,
        None => return None,
    };
    let t = trim(addr_str.as_slice());
    let dest = match parse_line_addr(t.as_slice()) {
        Some(d) => d,
        None => return None,
    };
    match parse_sub_range(range_str.as_slice()) {
        Some(r) => Some((r, dest)),
        None => None,
    }
}

/// The join verbs `j`, `jo`, `joi`, `join`.
pub open spec fn is_join_verb(v: Seq<char>) -> bool {
    v == seq!['j'] || v == seq!['j', 'o'] || v == seq!['j', 'o', 'i'] || v == seq!['j', 'o', 'i', 'n']
}

/// `:[range]j[oin][!]`: the range and whether `!` was given.
pub open spec fn join_of(line: Seq<char>) -> Option<(SubRange, bool)> {
    let v = trim_of(verb_part(line));
    let bang = v.len() > 0 && v.last() == '!';
    let w = if bang { v.drop_last() } else { v };
    if is_join_verb(w) {
        match sub_range_of(range_part(line)) {
            Some(r) => Some((r, bang)),
            None => None,
        }
    } else {
        None
    }
}

/// Parses `:[range]j[oin][!]` (see `join_of`).
pub fn parse_join(line: &[char]) -> (r: Option<(SubRange, bool)>)
    ensures
        r == join_of(line@),
{
    let (range_str, rest) = split_range(line);
    let v = trim(rest.as_slice());
    let bang = v.len() > 0 && v[v.len() - 1] == '!';
    let w = if bang { copy_range(v.as_slice(), 0, v.len() - 1) } else { v };
    assert(bang ==> w@ =~= v@.drop_last());
    let n = w.len();
    let is_join = (n == 1 && w[0] == 'j') || (n == 2 && w[0] == 'j' && w[1] == 'o') || (n == 3 && w[0]
        == 'j' && w[1] == 'o' && w[2] == 'i') || (n == 4 && w[0] == 'j' && w[1] == 'o' && w[2] == 'i'
        && w[3] == 'n');
    assert(is_join == is_join_verb(w@)) by {
        if n == 1 && w@[0] == 'j' { assert(w@ =~= seq!['j']); }
        if n == 2 && w@[0] == 'j' && w@[1] == 'o' { assert(w@ =~= seq!['j', 'o']); }
        if n == 3 && w@[0] == 'j' && w@[1] == 'o' && w@[2] == 'i' { assert(w@ =~= seq!['j', 'o', 'i']); }
        if n == 4 && w@[0] == 'j' && w@[1] == 'o' && w@[2] == 'i' && w@[3] == 'n' {
            assert(w@ =~= seq!['j', 'o', 'i', 'n']);
        }
    }
    if !is_join {
        return None;
    }
    match parse_sub_range(range_str.as_slice()) {
        Some(r) => Some((r, bang)),
        None => None,
    }
}

/// `:[range]>>>` / `:[range]<<`: the range, whether it shifts left, and the run length (as a
/// `u32`, wrapping as the cast does).
pub open spec fn shift_of(line: Seq<char>) -> Option<(SubRange, bool, u32)> {
    let v = trim_of(verb_part(line));
    if v.len() > 0 && (v[0] == '>' || v[0] == '<') && (forall|k: int| 0 <= k < v.len() ==> #[trigger] v[k] == v[0]) {
        match sub_range_of(range_part(line)) {
            Some(r) => Some((r, v[0] == '<', #[verifier::truncate] (v.len() as u32))),
            None => None,
        }
    } else {
        None
    }
}

/// Parses `:[range]>` / `:[range]<` runs (see `shift_of`).
pub fn parse_shift(line: &[char]) -> (r: Option<(SubRange, bool, u32)>)
    ensures
        r == shift_of(line@),
{
    let (range_str, rest) = split_range(line);
    let v = trim(rest.as_slice());
    if v.len() == 0 {
        return None;
    }
    let first = v[0];
    if first != '>' && first != '<' {
        return None;
    }
    let mut k: usize = 1;
    while k < v.len()
        invariant
            1 <= k <= v@.len(),
            first == v@[0],
            v@ == trim_of(verb_part(line@)),
            forall|j: int| 0 <= j < k ==> v@[j] == first,
        decreases v.len() - k,
    {
        if v[k] != first {
            assert(v@[k as int] != v@[0]);
            return None;
        }
        k += 1;
    }
    match parse_sub_range(range_str.as_slice()) {
        Some(r) => Some((r, first == '<', #[verifier::truncate] (v.len() as u32))),
        None => None,
    }
}

/// The one character of `s`, when it holds exactly one.
pub open spec fn single_char_of(s: Seq<char>) -> Option<char> {
    if s.len() == 1 { Some(s[0]) } else { None }
}

/// The one character of `s`, when it holds exactly one.
pub fn single_char(s: &[char]) -> (r: Option<char>)
    ensures
        r == single_char_of(s@),
{
    if s.len() == 1 { Some(s[0]) } else { None }
}

/// `:[addr]put [reg]` / `:pu`: the destination (after the cursor's line when no address is
/// given) and the register, which must stand apart from the verb and be a single character.
pub open spec fn put_of(line: Seq<char>) -> Option<(LineAddr, Option<char>)> {
    match strip_first_verb(verb_part(line), seq!["put"@, "pu"@]) {
        Some(rest) => {
            let reg: Option<Option<char>> = if rest.len() == 0 {
                Some(None)
            } else if is_ws(rest[0]) {
                let arg = trim_of(rest.skip(1));
                if arg.len() == 0 {
                    Some(None)
                } else {
                    match single_char_of(arg) {
                        Some(c) => Some(Some(c)),
                        None => None,
                    }
                }
            } else {
                None
            };
            let addr: Option<LineAddr> = if range_part(line).len() == 0 {
                Some(LineAddr::Current)
            } else {
                line_addr_of(trim_of(range_part(line)))
            };
            match (addr, reg) {
                (Some(a), Some(g)) => Some((a, g)),
                _ => None,
            }
        },
        None => None,
    }
}

/// Parses `:[addr]put [reg]` (see `put_of`).
pub fn parse_put(line: &[char]) -> (r: Option<(LineAddr, Option<char>)>)
    ensures
        r == put_of(line@),
{
    let (addr_str, rest0) = split_range(line);
    let verbs = vec!["put", "pu"];
    assert(views_of(verbs@) =~= seq!["put"@, "pu"@]);
    let rest = match strip_verb(rest0.as_slice(), verbs.as_slice()) {
        Some(r) => r,
        None => return None,
    };
    let reg: Option<char> = if rest.len() == 0 {
        None
    } else {
        if !is_whitespace(rest[0]) {
            return None;
        }
        let tail = copy_range(rest.as_slice(), 1, rest.len());
        assert(tail@ =~= rest@.skip(1));
        let arg = trim(tail.as_slice());
        if arg.len() == 0 {
            None
        } else {
            match single_char(arg.as_slice()) {
                Some(c) => Some(c),
                None => return None,
            }
        }
    };
    let addr = if addr_str.len() == 0 {
        LineAddr::Current
    } else {
        let t = trim(addr_str.as_slice());
        match parse_line_addr(t.as_slice()) {
            Some(a) => a,
            None => return None,
        }
    };
    Some((addr, reg))
}

} // verus!
