//! The ex commands that take a free-form argument: `:read`, `:!`, `:e`, `:b`, `:lmap`,
//! `:lunmap`, `:rename` and `:normal`.
use vstd::prelude::*;
use super::range::{
    line_addr_of, parse_line_addr, parse_sub_range, range_part, single_char, single_char_of, split_range,
    strip_first_verb, strip_verb, sub_range_of, verb_part, views_of, LineAddr,
};
use super::{BufTarget, Ex, ExV, ReadSource, ReadSourceV};
use crate::text::string_of;
use crate::words::{
    copy_range, is_whitespace, is_ws, parse_uint, parse_uint_max, strip_prefix, trim, trim_of, trim_start,
    trim_start_of,
};

verus! {

/// A character of a single-line address prefix: `[0-9.$]`.
pub open spec fn is_addr_char(c: char) -> bool {
    ('0' <= c && c <= '9') || c == '.' || c == '$'
}

/// The first index from `i` on whose character is not an address character (or the length).
pub open spec fn addr_end_from(s: Seq<char>, i: int) -> int
    decreases s.len() - i,
{
    if i < 0 || i >= s.len() {
        s.len() as int
    } else if is_addr_char(s[i]) {
        addr_end_from(s, i + 1)
    } else {
        i
    }
}

proof fn lemma_addr_end_from(s: Seq<char>, i: int)
    requires
        0 <= i <= s.len(),
    ensures
        i <= addr_end_from(s, i) <= s.len(),
    decreases s.len() - i,
{
    if i < s.len() && is_addr_char(s[i]) {
        lemma_addr_end_from(s, i + 1);
    }
}

/// The length of the address prefix of `s`.
fn addr_prefix_len(s: &[char]) -> (n: usize)
    ensures
        n == addr_end_from(s@, 0),
        n <= s@.len(),
{
    proof {
        lemma_addr_end_from(s@, 0);
    }
    let mut k: usize = 0;
    while k < s.len() && (('0' <= s[k] && s[k] <= '9') || s[k] == '.' || s[k] == '$')
        invariant
            k <= s@.len(),
            addr_end_from(s@, k as int) == addr_end_from(s@, 0),
        decreases s.len() - k,
    {
        k += 1;
    }
    k
}

/// `:[addr]r[ead] {file}` / `:[addr]r[ead] !{cmd}`: the verb (`read`, `re`, `r`) needs
/// whitespace and a non-empty argument; a leading `!` makes it a command (which must not be
/// empty); no address means below the cursor's line.
pub open spec fn read_of(line: Seq<char>) -> Option<ExV> {
    let n = addr_end_from(line, 0);
    let addr_str = line.take(n);
    match strip_first_verb(line.skip(n), seq!["read"@, "re"@, "r"@]) {
        None => None,
        Some(rest) => {
            let arg = trim_of(rest);
            if rest.len() == 0 || !is_ws(rest[0]) || arg.len() == 0 {
                None
            } else {
                let source = if arg[0] == '!' {
                    let cmd = trim_start_of(arg.skip(1));
                    if cmd.len() == 0 { None } else { Some(ReadSourceV::Command(cmd)) }
                } else {
                    Some(ReadSourceV::File(arg))
                };
                let addr = if addr_str.len() == 0 {
                    Some(LineAddr::Current)
                } else {
                    line_addr_of(trim_of(addr_str))
                };
                match (source, addr) {
                    (Some(source), Some(addr)) => Some(ExV::Read { addr, source }),
                    _ => None,
                }
            }
        },
    }
}

/// Parses `:read` (see `read_of`).
pub fn parse_read(line: &[char]) -> (r: Option<Ex>)
    ensures
        r matches Some(e) ==> read_of(line@) == Some(e@),
        r is None ==> read_of(line@) is None,
{
    let n = addr_prefix_len(line);
    let addr_str = copy_range(line, 0, n);
    let rest0 = copy_range(line, n, line.len());
    assert(addr_str@ =~= line@.take(n as int));
    assert(rest0@ =~= line@.skip(n as int));
    let verbs = vec!["read", "re", "r"];
    assert(views_of(verbs@) =~= seq!["read"@, "re"@, "r"@]);
    let rest = match strip_verb(rest0.as_slice(), verbs.as_slice()) {
        Some(r) => r,
        None => return None,
    };
    if rest.len() == 0 || !is_whitespace(rest[0]) {
        return None;
    }
    let arg = trim(rest.as_slice());
    if arg.len() == 0 {
        return None;
    }
    let source = if arg[0] == '!' {
        let tail = copy_range(arg.as_slice(), 1, arg.len());
        assert(tail@ =~= arg@.skip(1));
        let cmd = trim_start(tail.as_slice());
        if cmd.len() == 0 {
            return None;
        }
        ReadSource::Command(string_of(cmd.as_slice()))
    } else {
        ReadSource::File(string_of(arg.as_slice()))
    };
    let addr = if addr_str.len() == 0 {
        LineAddr::Current
    } else {
        let t = trim(addr_str.as_slice());
        match parse_line_addr(t.as_slice()) {
            Some(a) => a,
            None => return None,
        }
    };
    Some(Ex::Read { addr, source })
}

/// `:!{cmd}` runs a command, `:{range}!{cmd}` filters the range through it; the command is
/// trimmed and must not be empty.
pub open spec fn bang_of(line: Seq<char>) -> Option<ExV> {
    let rest = verb_part(line);
    if rest.len() == 0 || rest[0] != '!' {
        None
    } else {
        let cmd = trim_of(rest.skip(1));
        if cmd.len() == 0 {
            None
        } else if range_part(line).len() == 0 {
            Some(ExV::Shell(cmd))
        } else {
            match sub_range_of(range_part(line)) {
                Some(range) => Some(ExV::Filter { range, cmd }),
                None => None,
            }
        }
    }
}

/// Parses the `!` forms (see `bang_of`).
pub fn parse_bang(line: &[char]) -> (r: Option<Ex>)
    ensures
        r matches Some(e) ==> bang_of(line@) == Some(e@),
        r is None ==> bang_of(line@) is None,
{
    let (range_str, rest) = split_range(line);
    if rest.len() == 0 || rest[0] != '!' {
        return None;
    }
    let tail = copy_range(rest.as_slice(), 1, rest.len());
    assert(tail@ =~= rest@.skip(1));
    let cmd = trim(tail.as_slice());
    if cmd.len() == 0 {
        return None;
    }
    if range_str.len() == 0 {
        Some(Ex::Shell(string_of(cmd.as_slice())))
    } else {
        match parse_sub_range(range_str.as_slice()) {
            Some(range) => Some(Ex::Filter { range, cmd: string_of(cmd.as_slice()) }),
            None => None,
        }
    }
}

/// `:e {file}` / `:edit {file}`: the verb needs whitespace after it and a non-empty path.
pub open spec fn edit_of(line: Seq<char>) -> Option<ExV> {
    match strip_first_verb(line, seq!["edit"@, "e"@]) {
        None => None,
        Some(rest) => if rest.len() > 0 && is_ws(rest[0]) && trim_of(rest).len() > 0 {
            Some(ExV::Edit(trim_of(rest)))
        } else {
            None
        },
    }
}

/// Parses `:e {file}` (see `edit_of`).
pub fn parse_edit(line: &[char]) -> (r: Option<Ex>)
    ensures
        r matches Some(e) ==> edit_of(line@) == Some(e@),
        r is None ==> edit_of(line@) is None,
{
    let verbs = vec!["edit", "e"];
    assert(views_of(verbs@) =~= seq!["edit"@, "e"@]);
    let rest = match strip_verb(line, verbs.as_slice()) {
        Some(r) => r,
        None => return None,
    };
    if rest.len() == 0 || !is_whitespace(rest[0]) {
        return None;
    }
    let file = trim(rest.as_slice());
    if file.len() == 0 {
        return None;
    }
    Some(Ex::Edit(string_of(file.as_slice())))
}

/// `:b {n}`, `:b{n}`, `:buffer {n}`: the trimmed rest must be a buffer number.
pub open spec fn buffer_of(line: Seq<char>) -> Option<ExV> {
    match strip_first_verb(line, seq!["buffer"@, "b"@]) {
        None => None,
        Some(rest) => match parse_uint(trim_of(rest), u64::MAX as nat) {
            Some(n) => Some(ExV::Buffer(BufTarget::Number(n as u64))),
            None => None,
        },
    }
}

/// Parses `:b {n}` (see `buffer_of`).
pub fn parse_buffer(line: &[char]) -> (r: Option<Ex>)
    ensures
        r matches Some(e) ==> buffer_of(line@) == Some(e@),
        r is None ==> buffer_of(line@) is None,
{
    let verbs = vec!["buffer", "b"];
    assert(views_of(verbs@) =~= seq!["buffer"@, "b"@]);
    let rest = match strip_verb(line, verbs.as_slice()) {
        Some(r) => r,
        None => return None,
    };
    let t = trim(rest.as_slice());
    match parse_uint_max(t.as_slice(), u64::MAX) {
        Some(n) => Some(Ex::Buffer(BufTarget::Number(n))),
        None => None,
    }
}

/// Whether `t` is two single characters separated by whitespace: what splitting it on
/// whitespace into exactly two one-character words means.
pub open spec fn two_chars_apart(t: Seq<char>) -> bool {
    &&& t.len() >= 3
    &&& !is_ws(t[0])
    &&& !is_ws(t.last())
    &&& forall|k: int| 1 <= k < t.len() - 1 ==> #[trigger] is_ws(t[k])
}

/// `:lunmap {lhs}` and `:lmap {lhs} {rhs}`: the verb needs whitespace after it, and each side is
/// a single character, with nothing after the right-hand side.
pub open spec fn lmap_of(line: Seq<char>) -> Option<ExV> {
    if "lunmap"@.is_prefix_of(line) {
        let rest = line.skip("lunmap"@.len() as int);
        if rest.len() == 0 || !is_ws(rest[0]) {
            None
        } else {
            match single_char_of(trim_of(rest)) {
                Some(lhs) => Some(ExV::Lunmap { lhs }),
                None => None,
            }
        }
    } else if "lmap"@.is_prefix_of(line) {
        let rest = line.skip("lmap"@.len() as int);
        let t = trim_of(rest);
        if rest.len() == 0 || !is_ws(rest[0]) || !two_chars_apart(t) {
            None
        } else {
            Some(ExV::Lmap { lhs: t[0], rhs: t.last() })
        }
    } else {
        None
    }
}

/// Whether `t` is two single characters separated by whitespace.
fn is_two_chars_apart(t: &[char]) -> (r: bool)
    ensures
        r == two_chars_apart(t@),
{
    if t.len() < 3 || is_whitespace(t[0]) || is_whitespace(t[t.len() - 1]) {
        return false;
    }
    let mut k: usize = 1;
    while k < t.len() - 1
        invariant
            1 <= k <= t@.len() - 1,
            t@.len() >= 3,
            forall|j: int| 1 <= j < k ==> #[trigger] is_ws(t@[j]),
        decreases t.len() - k,
    {
        if !is_whitespace(t[k]) {
            return false;
        }
        k += 1;
    }
    true
}

/// Parses `:lmap` / `:lunmap` (see `lmap_of`).
pub fn parse_lmap(line: &[char]) -> (r: Option<Ex>)
    ensures
        r matches Some(e) ==> lmap_of(line@) == Some(e@),
        r is None ==> lmap_of(line@) is None,
{
    match strip_prefix(line, "lunmap") {
        Some(rest) => {
            if rest.len() == 0 || !is_whitespace(rest[0]) {
                return None;
            }
            let t = trim(rest.as_slice());
            return match single_char(t.as_slice()) {
                Some(lhs) => Some(Ex::Lunmap { lhs }),
                None => None,
            };
        },
        None => {},
    }
    let rest = match strip_prefix(line, "lmap") {
        Some(r) => r,
        None => return None,
    };
    if rest.len() == 0 || !is_whitespace(rest[0]) {
        return None;
    }
    let t = trim(rest.as_slice());
    if !is_two_chars_apart(t.as_slice()) {
        return None;
    }
    Some(Ex::Lmap { lhs: t[0], rhs: t[t.len() - 1] })
}

/// Whether `t` holds a whitespace character.
pub open spec fn has_ws(t: Seq<char>) -> bool {
    exists|k: int| 0 <= k < t.len() && #[trigger] is_ws(t[k])
}

/// `:rename {new}` / `:rn {new}`: the trimmed name, which must be non-empty and hold no
/// whitespace.
pub open spec fn rename_of(line: Seq<char>) -> Option<Seq<char>> {
    match strip_first_verb(line, seq!["rename "@, "rn "@]) {
        None => None,
        Some(rest) => {
            let t = trim_of(rest);
            if t.len() > 0 && !has_ws(t) { Some(t) } else { None }
        },
    }
}

/// Parses `:rename {new}` (see `rename_of`).
pub fn parse_rename(line: &[char]) -> (r: Option<String>)
    ensures
        r matches Some(s) ==> rename_of(line@) == Some(s@),
        r is None ==> rename_of(line@) is None,
{
    let verbs = vec!["rename ", "rn "];
    assert(views_of(verbs@) =~= seq!["rename "@, "rn "@]);
    let rest = match strip_verb(line, verbs.as_slice()) {
        Some(r) => r,
        None => return None,
    };
    let t = trim(rest.as_slice());
    if t.len() == 0 {
        return None;
    }
    let mut k: usize = 0;
    assert(rename_of(line@) == (if has_ws(t@) { None } else { Some(t@) }));
    while k < t.len()
        invariant
            k <= t@.len(),
            rename_of(line@) == (if has_ws(t@) { None } else { Some(t@) }),
            forall|j: int| 0 <= j < k ==> !#[trigger] is_ws(t@[j]),
        decreases t.len() - k,
    {
        if is_whitespace(t[k]) {
            assert(is_ws(t@[k as int]));
            return None;
        }
        k += 1;
    }
    Some(string_of(t.as_slice()))
}

/// `:[range]normal[!] {keys}` (verb `normal`, `norma` or `norm`, after leading whitespace): one
/// space delimits the verbatim keys; no range means none.
pub open spec fn normal_of(raw: Seq<char>) -> Option<ExV> {
    let line = trim_start_of(raw);
    match strip_first_verb(verb_part(line), seq!["normal"@, "norma"@, "norm"@]) {
        None => None,
        Some(r) => {
            let bang = r.len() > 0 && r[0] == '!';
            let r2 = if bang { r.skip(1) } else { r };
            if r2.len() == 0 || r2[0] != ' ' {
                None
            } else if range_part(line).len() == 0 {
                Some(ExV::Normal { bang, range: None, keys: r2.skip(1) })
            } else {
                match sub_range_of(range_part(line)) {
                    Some(range) => Some(ExV::Normal { bang, range: Some(range), keys: r2.skip(1) }),
                    None => None,
                }
            }
        },
    }
}

/// Parses `:normal` on the untrimmed line (see `normal_of`).
pub fn parse_normal(raw: &[char]) -> (r: Option<Ex>)
    ensures
        r matches Some(e) ==> normal_of(raw@) == Some(e@),
        r is None ==> normal_of(raw@) is None,
{
    let line = trim_start(raw);
    let (range_str, rest0) = split_range(line.as_slice());
    let verbs = vec!["normal", "norma", "norm"];
    assert(views_of(verbs@) =~= seq!["normal"@, "norma"@, "norm"@]);
    let r = match strip_verb(rest0.as_slice(), verbs.as_slice()) {
        Some(r) => r,
        None => return None,
    };
    let bang = r.len() > 0 && r[0] == '!';
    let r2 = if bang { copy_range(r.as_slice(), 1, r.len()) } else { r };
    assert(bang ==> r2@ =~= r@.skip(1));
    if r2.len() == 0 || r2[0] != ' ' {
        return None;
    }
    let keys = copy_range(r2.as_slice(), 1, r2.len());
    assert(keys@ =~= r2@.skip(1));
    if range_str.len() == 0 {
        Some(Ex::Normal { bang, range: None, keys: string_of(keys.as_slice()) })
    } else {
        match parse_sub_range(range_str.as_slice()) {
            Some(range) => Some(Ex::Normal { bang, range: Some(range), keys: string_of(keys.as_slice()) }),
            None => None,
        }
    }
}

} // verus!
