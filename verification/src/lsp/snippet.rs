//! LSP snippet expansion: a pure text transform that renders a snippet body as plain text and
//! reports ONE cursor position (the first tabstop).
//!
//! Grammar (LSP): `$N` / `${N}` (tabstop, empty), `${N:default}` (tabstop with default text),
//! `$0` / `${0}` (final position), `${N|a,b,c|}` (choice — the first choice is the default here),
//! `$var` / `${var}` / `${var:default}` (variable — unresolved, so its default text or empty),
//! escapes `\$` `\}` `\\`.
use vstd::prelude::*;
use vstd::utf8::*;
use crate::text::{
    alphabetic, alphanumeric, chars_of, digit_value, is_alphabetic, is_alphanumeric,
    is_digit, push_char,
};

verus! {

/// The result of expanding a snippet: the plain `text` to insert and the `cursor` BYTE offset
/// within it (the first tabstop, else `$0`, else the end).
#[derive(Clone, Debug, PartialEq, Eq)]
pub struct Expansion {
    pub text: String,
    pub cursor: usize,
}

/// The state of the expansion walk: the input position, the rendered text, and the tabstops seen
/// as `(number, byte offset in the text)`.
pub struct Snip {
    pub i: int,
    pub out: Seq<char>,
    pub tabs: Seq<(u32, usize)>,
}

/// The byte length of rendered text.
pub open spec fn byte_len(out: Seq<char>) -> usize {
    encode_utf8(out).len() as usize
}

/// The character at `i`, if any.
pub open spec fn at(cs: Seq<char>, i: int) -> Option<char> {
    if 0 <= i < cs.len() { Some(cs[i]) } else { None }
}

/// `n * 10 + d`, saturating at `u32::MAX` at each step.
pub open spec fn sat_digit(n: u32, d: u32) -> u32 {
    let m = if n * 10 <= u32::MAX { (n * 10) as u32 } else { u32::MAX };
    if m + d <= u32::MAX { (m + d) as u32 } else { u32::MAX }
}

pub proof fn lemma_number_from(cs: Seq<char>, i: int, n: u32, any: bool)
    ensures
        number_from(cs, i, n, any).1 >= i,
        0 <= i <= cs.len() ==> number_from(cs, i, n, any).1 <= cs.len(),
    decreases cs.len() - i,
{
    if 0 <= i < cs.len() && is_digit(cs[i]) {
        lemma_number_from(cs, i + 1, sat_digit(n, digit_value(cs[i])), true);
    }
}

pub proof fn lemma_var_end(cs: Seq<char>, i: int)
    ensures
        var_end(cs, i) >= i,
        0 <= i <= cs.len() ==> var_end(cs, i) <= cs.len(),
    decreases cs.len() - i,
{
    if 0 <= i < cs.len() && cs[i] != '}' && cs[i] != ':' {
        lemma_var_end(cs, i + 1);
    }
}

/// Read a run of digits from `i`: the saturated value (or `u32::MAX` when there are no digits)
/// and the position after the run.
pub open spec fn number_from(cs: Seq<char>, i: int, n: u32, any: bool) -> (u32, int)
    decreases cs.len() - i,
{
    if 0 <= i < cs.len() && is_digit(cs[i]) {
        number_from(cs, i + 1, sat_digit(n, digit_value(cs[i])), true)
    } else {
        (if any { n } else { u32::MAX }, i)
    }
}

/// The end of the identifier run (alphanumerics and `_`) from `i`.
pub open spec fn ident_end(cs: Seq<char>, i: int) -> int
    decreases cs.len() - i,
{
    if 0 <= i < cs.len() && (alphanumeric(cs[i]) || cs[i] == '_') {
        ident_end(cs, i + 1)
    } else {
        i
    }
}

/// The end of a variable name: up to the first `}` or `:`.
pub open spec fn var_end(cs: Seq<char>, i: int) -> int
    decreases cs.len() - i,
{
    if 0 <= i < cs.len() && cs[i] != '}' && cs[i] != ':' {
        var_end(cs, i + 1)
    } else {
        i
    }
}

/// The first choice of `${N|a,b,c|}` from `i` (honoring `\,`/`\|` escapes) and the position of
/// the first unescaped `,` or `|`.
pub open spec fn choice_first(cs: Seq<char>, i: int, acc: Seq<char>) -> (Seq<char>, int)
    decreases cs.len() - i,
{
    if 0 <= i < cs.len() {
        let c = cs[i];
        if c == ',' || c == '|' {
            (acc, i)
        } else if c == '\\' {
            if i + 1 < cs.len() {
                choice_first(cs, i + 2, acc.push(cs[i + 1]))
            } else {
                choice_first(cs, i + 1, acc)
            }
        } else {
            choice_first(cs, i + 1, acc.push(c))
        }
    } else {
        (acc, i)
    }
}

/// The position after the closing `|` of the choices from `i` (or the end).
pub open spec fn choice_end(cs: Seq<char>, i: int) -> int
    decreases cs.len() - i,
{
    if 0 <= i < cs.len() {
        if cs[i] == '|' { i + 1 } else { choice_end(cs, i + 1) }
    } else {
        i
    }
}

/// Step past `want` when it is next.
pub open spec fn consumed(cs: Seq<char>, st: Snip, want: char) -> Snip {
    if at(cs, st.i) == Some(want) { Snip { i: st.i + 1, ..st } } else { st }
}

/// Render from `st` until the end (or, when `nested`, an unescaped `}`, left unconsumed).
pub open spec fn walk(cs: Seq<char>, st: Snip, nested: bool) -> Snip
    decreases cs.len() - st.i, 2nat,
{
    if st.i < 0 || st.i >= cs.len() {
        st
    } else {
        let c = cs[st.i];
        if c == '}' && nested {
            st
        } else if c == '\\' {
            let next = match at(cs, st.i + 1) {
                Some(e) => if e == '$' || e == '}' || e == '\\' {
                    Snip { i: st.i + 2, out: st.out.push(e), ..st }
                } else {
                    Snip { i: st.i + 2, out: st.out.push('\\').push(e), ..st }
                },
                None => Snip { i: st.i + 1, out: st.out.push('\\'), ..st },
            };
            walk(cs, next, nested)
        } else if c == '$' {
            let d = dollar(cs, st);
            let next = if st.i < d.i <= cs.len() { d } else { Snip { i: st.i + 1, ..d } };
            walk(cs, next, nested)
        } else {
            walk(cs, Snip { i: st.i + 1, out: st.out.push(c), ..st }, nested)
        }
    }
}

/// Render the `$` construct at `st.i`.
pub open spec fn dollar(cs: Seq<char>, st: Snip) -> Snip
    decreases cs.len() - st.i, 1nat,
{
    let j = st.i + 1;
    if st.i < 0 || st.i >= cs.len() {
        st
    } else {
        match at(cs, j) {
            Some(c) => if c == '{' {
                braced(cs, Snip { i: j, ..st })
            } else if is_digit(c) {
                let (n, k) = number_from(cs, j, 0, false);
                Snip { i: k, tabs: st.tabs.push((n, byte_len(st.out))), ..st }
            } else if alphabetic(c) || c == '_' {
                Snip { i: ident_end(cs, j), ..st }
            } else {
                Snip { i: j, out: st.out.push('$'), ..st }
            },
            None => Snip { i: j, out: st.out.push('$'), ..st },
        }
    }
}

/// Render the `{...}` construct at `st.i` (just after a `$`).
pub open spec fn braced(cs: Seq<char>, st: Snip) -> Snip
    decreases cs.len() - st.i, 0nat,
{
    if st.i < 0 || st.i >= cs.len() {
        st
    } else {
        let j = st.i + 1;
        let (n, k) = number_from(cs, j, 0, false);
        proof {
            lemma_number_from(cs, j, 0, false);
            lemma_var_end(cs, k);
        }
        if n != u32::MAX {
            let tabbed = st.tabs.push((n, byte_len(st.out)));
            if at(cs, k) == Some(':') {
                consumed(cs, walk(cs, Snip { i: k + 1, tabs: tabbed, ..st }, true), '}')
            } else if at(cs, k) == Some('|') {
                let (first, m) = choice_first(cs, k + 1, seq![]);
                consumed(cs, Snip { i: choice_end(cs, m), out: st.out + first, tabs: tabbed }, '}')
            } else {
                consumed(cs, Snip { i: k, tabs: tabbed, ..st }, '}')
            }
        } else {
            let v = var_end(cs, k);
            if at(cs, v) == Some(':') {
                consumed(cs, walk(cs, Snip { i: v + 1, ..st }, true), '}')
            } else {
                consumed(cs, Snip { i: v, ..st }, '}')
            }
        }
    }
}

/// The index of the first tabstop with the least positive number (not the `u32::MAX` sentinel),
/// scanning from `k` with the best so far.
pub open spec fn best_from(tabs: Seq<(u32, usize)>, k: int, best: Option<int>) -> Option<int>
    decreases tabs.len() - k,
{
    if k < 0 || k >= tabs.len() {
        best
    } else {
        let n = tabs[k].0;
        let better = n >= 1 && n != u32::MAX && match best {
            Some(b) => n < tabs[b].0,
            None => true,
        };
        best_from(tabs, k + 1, if better { Some(k) } else { best })
    }
}

/// The index of the first `$0` tabstop from `k` on.
pub open spec fn first_zero(tabs: Seq<(u32, usize)>, k: int) -> Option<int>
    decreases tabs.len() - k,
{
    if k < 0 || k >= tabs.len() {
        None
    } else if tabs[k].0 == 0 {
        Some(k)
    } else {
        first_zero(tabs, k + 1)
    }
}

/// The cursor: the lowest positive tabstop's offset, else `$0`'s, else `end`.
pub open spec fn cursor_of(tabs: Seq<(u32, usize)>, end: usize) -> usize {
    match best_from(tabs, 0, None) {
        Some(b) => tabs[b].1,
        None => match first_zero(tabs, 0) {
            Some(z) => tabs[z].1,
            None => end,
        },
    }
}

/// The expansion of snippet `body`: its rendered text and cursor.
pub open spec fn expansion_of(body: Seq<char>) -> (Seq<char>, usize) {
    let st = walk(body, Snip { i: 0, out: seq![], tabs: seq![] }, false);
    (st.out, cursor_of(st.tabs, byte_len(st.out)))
}

struct Parser {
    chars: Vec<char>,
    i: usize,
    out: String,
    /// `(tabstop number, byte offset in `out` at the tabstop's start)`.
    tabs: Vec<(u32, usize)>,
}

impl Parser {
    spec fn st(&self) -> Snip {
        Snip { i: self.i as int, out: self.out@, tabs: self.tabs@ }
    }

    spec fn ok(&self) -> bool {
        self.i <= self.chars.len()
    }

    fn peek(&self) -> (r: Option<char>)
        ensures
            r == at(self.chars@, self.i as int),
    {
        if self.i < self.chars.len() {
            Some(self.chars[self.i])
        } else {
            None
        }
    }

    fn push(&mut self, c: char)
        ensures
            final(self).out@ == old(self).out@.push(c),
            final(self).i == old(self).i,
            final(self).chars@ == old(self).chars@,
            final(self).tabs == old(self).tabs,
    {
        push_char(&mut self.out, c);
    }

    /// Record a tabstop numbered `n` at the current end of the text.
    fn tab(&mut self, n: u32)
        ensures
            final(self).tabs@ == old(self).tabs@.push((n, byte_len(old(self).out@))),
            final(self).i == old(self).i,
            final(self).chars@ == old(self).chars@,
            final(self).out == old(self).out,
    {
        let off = self.out.as_str().len();
        self.tabs.push((n, off));
    }

    /// Append rendered text until end (or, when `nested`, an unescaped `}` — which the caller
    /// consumes).
    fn parse(&mut self, nested: bool)
        requires
            old(self).ok(),
        ensures
            final(self).ok(),
            final(self).chars@ == old(self).chars@,
            final(self).st() == walk(old(self).chars@, old(self).st(), nested),
            final(self).i >= old(self).i,
        decreases old(self).chars@.len() - old(self).i, 2nat,
    {
        let ghost cs = self.chars@;
        loop
            invariant
                self.ok(),
                self.chars@ == cs,
                cs == old(self).chars@,
                self.i >= old(self).i,
                walk(cs, self.st(), nested) == walk(cs, old(self).st(), nested),
            decreases cs.len() - self.i,
        {
            let c = match self.peek() {
                Some(c) => c,
                None => {
                    return;
                },
            };
            if c == '}' && nested {
                return;
            }
            if c == '\\' {
                self.i += 1;
                match self.peek() {
                    Some(e) => {
                        if e == '$' || e == '}' || e == '\\' {
                            self.push(e);
                        } else {
                            self.push('\\');
                            self.push(e);
                        }
                        self.i += 1;
                    },
                    None => {
                        self.push('\\');
                    },
                }
            } else if c == '$' {
                self.parse_dollar();
            } else {
                self.push(c);
                self.i += 1;
            }
        }
    }

    fn parse_dollar(&mut self)
        requires
            old(self).ok(),
            old(self).i < old(self).chars@.len(),
        ensures
            final(self).ok(),
            final(self).chars@ == old(self).chars@,
            final(self).st() == dollar(old(self).chars@, old(self).st()),
            final(self).i > old(self).i,
        decreases old(self).chars@.len() - old(self).i, 1nat,
    {
        self.i += 1;
        match self.peek() {
            Some(c) => {
                if c == '{' {
                    self.parse_braced();
                } else if '0' <= c && c <= '9' {
                    let n = self.read_number();
                    self.tab(n);
                } else if is_alphabetic(c) || c == '_' {
                    self.skip_ident();
                } else {
                    self.push('$');
                }
            },
            None => {
                self.push('$');
            },
        }
    }

    /// Consume an identifier run (alphanumerics and `_`).
    fn skip_ident(&mut self)
        requires
            old(self).ok(),
        ensures
            final(self).ok(),
            final(self).i == ident_end(old(self).chars@, old(self).i as int),
            final(self).i >= old(self).i,
            final(self).chars@ == old(self).chars@,
            final(self).out == old(self).out,
            final(self).tabs == old(self).tabs,
    {
        let ghost cs = self.chars@;
        let ghost j = self.i as int;
        loop
            invariant
                self.ok(),
                self.chars@ == cs,
                cs == old(self).chars@,
                j == old(self).i,
                self.i >= j,
                ident_end(cs, self.i as int) == ident_end(cs, j),
                self.out == old(self).out,
                self.tabs == old(self).tabs,
            decreases cs.len() - self.i,
        {
            match self.peek() {
                Some(d) => {
                    if is_alphanumeric(d) || d == '_' {
                        self.i += 1;
                    } else {
                        return;
                    }
                },
                None => {
                    return;
                },
            }
        }
    }

    fn parse_braced(&mut self)
        requires
            old(self).ok(),
            old(self).i < old(self).chars@.len(),
        ensures
            final(self).ok(),
            final(self).chars@ == old(self).chars@,
            final(self).st() == braced(old(self).chars@, old(self).st()),
            final(self).i > old(self).i,
        decreases old(self).chars@.len() - old(self).i, 0nat,
    {
        let ghost cs = self.chars@;
        let ghost st0 = self.st();
        self.i += 1;
        let n = self.read_number();
        proof {
            lemma_number_from(cs, st0.i + 1, 0, false);
        }
        if n != u32::MAX {
            match self.peek() {
                Some(':') => {
                    self.i += 1;
                    self.tab(n);
                    self.parse(true);
                    self.consume('}');
                },
                Some('|') => {
                    self.i += 1;
                    self.tab(n);
                    let first = self.read_choice_first();
                    self.out.append(first.as_str());
                    self.skip_to_choice_end();
                    self.consume('}');
                },
                _ => {
                    self.tab(n);
                    self.consume('}');
                },
            }
        } else {
            self.skip_var();
            match self.peek() {
                Some(':') => {
                    self.i += 1;
                    self.parse(true);
                    self.consume('}');
                },
                _ => {
                    self.consume('}');
                },
            }
        }
    }

    /// Consume a variable name: up to the first `}` or `:`.
    fn skip_var(&mut self)
        requires
            old(self).ok(),
        ensures
            final(self).ok(),
            final(self).i == var_end(old(self).chars@, old(self).i as int),
            final(self).i >= old(self).i,
            final(self).chars@ == old(self).chars@,
            final(self).out == old(self).out,
            final(self).tabs == old(self).tabs,
    {
        let ghost cs = self.chars@;
        let ghost j = self.i as int;
        loop
            invariant
                self.ok(),
                self.chars@ == cs,
                cs == old(self).chars@,
                j == old(self).i,
                self.i >= j,
                var_end(cs, self.i as int) == var_end(cs, j),
                self.out == old(self).out,
                self.tabs == old(self).tabs,
            decreases cs.len() - self.i,
        {
            match self.peek() {
                Some(d) => {
                    if d != '}' && d != ':' {
                        self.i += 1;
                    } else {
                        return;
                    }
                },
                None => {
                    return;
                },
            }
        }
    }

    fn consume(&mut self, want: char)
        requires
            old(self).ok(),
        ensures
            final(self).ok(),
            final(self).st() == consumed(old(self).chars@, old(self).st(), want),
            final(self).chars@ == old(self).chars@,
            final(self).i >= old(self).i,
    {
        if self.peek() == Some(want) {
            self.i += 1;
        }
    }

    fn read_number(&mut self) -> (n: u32)
        requires
            old(self).ok(),
        ensures
            final(self).ok(),
            (n, final(self).i as int) == number_from(old(self).chars@, old(self).i as int, 0, false),
            final(self).i >= old(self).i,
            final(self).chars@ == old(self).chars@,
            final(self).out == old(self).out,
            final(self).tabs == old(self).tabs,
    {
        let ghost cs = self.chars@;
        let ghost j = self.i as int;
        let mut n: u32 = 0;
        let mut any = false;
        proof {
            lemma_number_from(cs, j, 0, false);
        }
        loop
            invariant
                self.ok(),
                self.chars@ == cs,
                cs == old(self).chars@,
                j == old(self).i,
                self.i >= j,
                self.out == old(self).out,
                self.tabs == old(self).tabs,
                number_from(cs, self.i as int, n, any) == number_from(cs, j, 0, false),
            decreases cs.len() - self.i,
        {
            match self.peek() {
                Some(c) => {
                    if '0' <= c && c <= '9' {
                        let d = (c as u32) - ('0' as u32);
                        let m = if n <= 429_496_729 { n * 10 } else { u32::MAX };
                        assert(m == if n * 10 <= u32::MAX { (n * 10) as u32 } else { u32::MAX });
                        n = m.saturating_add(d);
                        any = true;
                        self.i += 1;
                    } else {
                        return if !any { u32::MAX } else { n };
                    }
                },
                None => {
                    return if !any { u32::MAX } else { n };
                },
            }
        }
    }

    /// The first choice of a `${N|a,b,c|}`, honoring `\,`/`\|` escapes; leaves `i` at the first
    /// `,` or `|`.
    fn read_choice_first(&mut self) -> (s: String)
        requires
            old(self).ok(),
        ensures
            final(self).ok(),
            (s@, final(self).i as int) == choice_first(old(self).chars@, old(self).i as int, seq![]),
            final(self).i >= old(self).i,
            final(self).chars@ == old(self).chars@,
            final(self).out == old(self).out,
            final(self).tabs == old(self).tabs,
    {
        let ghost cs = self.chars@;
        let ghost j = self.i as int;
        let mut s = String::new();
        loop
            invariant
                self.ok(),
                self.chars@ == cs,
                cs == old(self).chars@,
                j == old(self).i,
                self.i >= j,
                self.out == old(self).out,
                self.tabs == old(self).tabs,
                choice_first(cs, self.i as int, s@) == choice_first(cs, j, seq![]),
            decreases cs.len() - self.i,
        {
            match self.peek() {
                Some(c) => {
                    if c == ',' || c == '|' {
                        return s;
                    } else if c == '\\' {
                        self.i += 1;
                        match self.peek() {
                            Some(e) => {
                                push_char(&mut s, e);
                                self.i += 1;
                            },
                            None => {},
                        }
                    } else {
                        push_char(&mut s, c);
                        self.i += 1;
                    }
                },
                None => {
                    return s;
                },
            }
        }
    }

    /// Skip the remaining choices up to and including the closing `|`.
    fn skip_to_choice_end(&mut self)
        requires
            old(self).ok(),
        ensures
            final(self).ok(),
            final(self).i == choice_end(old(self).chars@, old(self).i as int),
            final(self).i >= old(self).i,
            final(self).chars@ == old(self).chars@,
            final(self).out == old(self).out,
            final(self).tabs == old(self).tabs,
    {
        let ghost cs = self.chars@;
        let ghost j = self.i as int;
        loop
            invariant
                self.ok(),
                self.chars@ == cs,
                cs == old(self).chars@,
                j == old(self).i,
                self.i >= j,
                self.out == old(self).out,
                self.tabs == old(self).tabs,
                choice_end(cs, self.i as int) == choice_end(cs, j),
            decreases cs.len() - self.i,
        {
            match self.peek() {
                Some(c) => {
                    self.i += 1;
                    if c == '|' {
                        return;
                    }
                },
                None => {
                    return;
                },
            }
        }
    }
}

/// The cursor: the lowest positive tabstop's offset, else `$0`, else the end of the text.
fn pick_cursor(tabs: &[(u32, usize)], end: usize) -> (r: usize)
    ensures
        r == cursor_of(tabs@, end),
{
    let mut best: Option<usize> = None;
    let mut k: usize = 0;
    while k < tabs.len()
        invariant
            k <= tabs@.len(),
            best matches Some(b) ==> b < k,
            best_from(tabs@, k as int, match best {
                Some(b) => Some(b as int),
                None => None,
            }) == best_from(tabs@, 0, None),
        decreases tabs.len() - k,
    {
        let n = tabs[k].0;
        let better = n >= 1 && n != u32::MAX && match best {
            Some(b) => n < tabs[b].0,
            None => true,
        };
        if better {
            best = Some(k);
        }
        k += 1;
    }
    match best {
        Some(b) => tabs[b].1,
        None => {
            let mut z: usize = 0;
            while z < tabs.len()
                invariant
                    z <= tabs@.len(),
                    best_from(tabs@, 0, None) is None,
                    first_zero(tabs@, z as int) == first_zero(tabs@, 0),
                decreases tabs.len() - z,
            {
                if tabs[z].0 == 0 {
                    return tabs[z].1;
                }
                z += 1;
            }
            end
        },
    }
}

/// Expand an LSP snippet `body` into plain text plus the first-tabstop cursor offset.
pub fn expand(body: &str) -> (r: Expansion)
    ensures
        (r.text@, r.cursor) == expansion_of(body@),
{
    let mut p = Parser { chars: chars_of(body), i: 0, out: String::new(), tabs: Vec::new() };
    assert(p.st() == Snip { i: 0, out: Seq::<char>::empty(), tabs: Seq::<(u32, usize)>::empty() });
    p.parse(false);
    let end = p.out.as_str().len();
    let cursor = pick_cursor(p.tabs.as_slice(), end);
    Expansion { text: p.out, cursor }
}

/// Whether byte offset `off` is the end of some prefix of the characters `out`.
pub open spec fn on_boundary(out: Seq<char>, off: usize) -> bool {
    exists|k: int| 0 <= k <= out.len() && off == #[trigger] byte_len(out.take(k))
}

/// Every tabstop of `st` sits on a character boundary of the text rendered so far.
spec fn tabs_ok(out: Seq<char>, tabs: Seq<(u32, usize)>) -> bool {
    forall|t: int| 0 <= t < tabs.len() ==> on_boundary(out, #[trigger] tabs[t].1)
}

/// `a` starts with `b`.
spec fn extends(a: Seq<char>, b: Seq<char>) -> bool {
    b.len() <= a.len() && a.take(b.len() as int) == b
}

proof fn lemma_boundary_extend(out: Seq<char>, a: Seq<char>, off: usize)
    requires
        on_boundary(out, off),
        extends(a, out),
    ensures
        on_boundary(a, off),
{
    let k = choose|k: int| 0 <= k <= out.len() && off == #[trigger] byte_len(out.take(k));
    assert(a.take(k) =~= out.take(k)) by {
        assert(a.take(k) =~= a.take(out.len() as int).take(k));
    }
    assert(off == byte_len(a.take(k)));
}

proof fn lemma_boundary_end(out: Seq<char>)
    ensures
        on_boundary(out, byte_len(out)),
{
    assert(out.take(out.len() as int) =~= out);
    assert(byte_len(out) == byte_len(out.take(out.len() as int)));
}

proof fn lemma_tabs_extend(st: Snip, out: Seq<char>)
    requires
        tabs_ok(st.out, st.tabs),
        extends(out, st.out),
    ensures
        tabs_ok(out, st.tabs),
{
    assert forall|t: int| 0 <= t < st.tabs.len() implies on_boundary(out, #[trigger] st.tabs[t].1) by {
        lemma_boundary_extend(st.out, out, st.tabs[t].1);
    }
}

proof fn lemma_extends_trans(a: Seq<char>, b: Seq<char>, c: Seq<char>)
    requires
        extends(a, b),
        extends(b, c),
    ensures
        extends(a, c),
{
    assert(a.take(c.len() as int) =~= a.take(b.len() as int).take(c.len() as int));
}

proof fn lemma_extends_push(a: Seq<char>, c: char)
    ensures
        extends(a.push(c), a),
{
    assert(a.push(c).take(a.len() as int) =~= a);
}

proof fn lemma_extends_concat(a: Seq<char>, b: Seq<char>)
    ensures
        extends(a + b, a),
{
    assert((a + b).take(a.len() as int) =~= a);
}

proof fn lemma_extends_refl(a: Seq<char>)
    ensures
        extends(a, a),
{
    assert(a.take(a.len() as int) =~= a);
}

/// A new tabstop at the end of the text rendered so far keeps every tabstop on a boundary.
proof fn lemma_tabs_push(st: Snip, n: u32)
    requires
        tabs_ok(st.out, st.tabs),
    ensures
        tabs_ok(st.out, st.tabs.push((n, byte_len(st.out)))),
{
    lemma_boundary_end(st.out);
    let tabs = st.tabs.push((n, byte_len(st.out)));
    assert forall|t: int| 0 <= t < tabs.len() implies on_boundary(st.out, #[trigger] tabs[t].1) by {
        if t < st.tabs.len() {
            assert(tabs[t] == st.tabs[t]);
        }
    }
}

proof fn lemma_walk_ok(cs: Seq<char>, st: Snip, nested: bool)
    requires
        tabs_ok(st.out, st.tabs),
    ensures
        tabs_ok(walk(cs, st, nested).out, walk(cs, st, nested).tabs),
        extends(walk(cs, st, nested).out, st.out),
    decreases cs.len() - st.i, 2nat,
{
    if st.i < 0 || st.i >= cs.len() {
        lemma_extends_refl(st.out);
    } else {
        let c = cs[st.i];
        if c == '}' && nested {
            lemma_extends_refl(st.out);
        } else if c == '\\' {
            let next = match at(cs, st.i + 1) {
                Some(e) => if e == '$' || e == '}' || e == '\\' {
                    Snip { i: st.i + 2, out: st.out.push(e), ..st }
                } else {
                    Snip { i: st.i + 2, out: st.out.push('\\').push(e), ..st }
                },
                None => Snip { i: st.i + 1, out: st.out.push('\\'), ..st },
            };
            lemma_extends_push(st.out, '\\');
            match at(cs, st.i + 1) {
                Some(e) => {
                    lemma_extends_push(st.out, e);
                    lemma_extends_push(st.out.push('\\'), e);
                    lemma_extends_trans(st.out.push('\\').push(e), st.out.push('\\'), st.out);
                },
                None => {},
            }
            lemma_tabs_extend(st, next.out);
            lemma_walk_ok(cs, next, nested);
            lemma_extends_trans(walk(cs, next, nested).out, next.out, st.out);
        } else if c == '$' {
            let d = dollar(cs, st);
            lemma_dollar_ok(cs, st);
            let next = if st.i < d.i <= cs.len() { d } else { Snip { i: st.i + 1, ..d } };
            lemma_walk_ok(cs, next, nested);
            lemma_extends_trans(walk(cs, next, nested).out, next.out, st.out);
        } else {
            let next = Snip { i: st.i + 1, out: st.out.push(c), ..st };
            lemma_extends_push(st.out, c);
            lemma_tabs_extend(st, next.out);
            lemma_walk_ok(cs, next, nested);
            lemma_extends_trans(walk(cs, next, nested).out, next.out, st.out);
        }
    }
}

proof fn lemma_dollar_ok(cs: Seq<char>, st: Snip)
    requires
        tabs_ok(st.out, st.tabs),
    ensures
        tabs_ok(dollar(cs, st).out, dollar(cs, st).tabs),
        extends(dollar(cs, st).out, st.out),
    decreases cs.len() - st.i, 1nat,
{
    lemma_extends_refl(st.out);
    let j = st.i + 1;
    if 0 <= st.i < cs.len() {
        match at(cs, j) {
            Some(c) => if c == '{' {
                lemma_braced_ok(cs, Snip { i: j, ..st });
            } else if is_digit(c) {
                let (n, k) = number_from(cs, j, 0, false);
                lemma_tabs_push(st, n);
            } else if alphabetic(c) || c == '_' {
            } else {
                lemma_extends_push(st.out, '$');
                lemma_tabs_extend(st, st.out.push('$'));
            },
            None => {
                lemma_extends_push(st.out, '$');
                lemma_tabs_extend(st, st.out.push('$'));
            },
        }
    }
}

proof fn lemma_braced_ok(cs: Seq<char>, st: Snip)
    requires
        tabs_ok(st.out, st.tabs),
    ensures
        tabs_ok(braced(cs, st).out, braced(cs, st).tabs),
        extends(braced(cs, st).out, st.out),
    decreases cs.len() - st.i, 0nat,
{
    lemma_extends_refl(st.out);
    if 0 <= st.i < cs.len() {
        let j = st.i + 1;
        let (n, k) = number_from(cs, j, 0, false);
        lemma_number_from(cs, j, 0, false);
        lemma_var_end(cs, k);
        if n != u32::MAX {
            let tabbed = st.tabs.push((n, byte_len(st.out)));
            lemma_tabs_push(st, n);
            if at(cs, k) == Some(':') {
                lemma_walk_ok(cs, Snip { i: k + 1, tabs: tabbed, ..st }, true);
            } else if at(cs, k) == Some('|') {
                let (first, m) = choice_first(cs, k + 1, seq![]);
                lemma_extends_concat(st.out, first);
                lemma_tabs_extend(Snip { tabs: tabbed, ..st }, st.out + first);
                assert(tabs_ok(st.out + first, tabbed));
            }
        } else {
            let v = var_end(cs, k);
            if at(cs, v) == Some(':') {
                lemma_walk_ok(cs, Snip { i: v + 1, ..st }, true);
            }
        }
    }
}

proof fn lemma_best_from(tabs: Seq<(u32, usize)>, k: int, best: Option<int>)
    requires
        0 <= k,
        best matches Some(b) ==> 0 <= b < tabs.len(),
    ensures
        best_from(tabs, k, best) matches Some(b) ==> 0 <= b < tabs.len(),
    decreases tabs.len() - k,
{
    if k < tabs.len() {
        let n = tabs[k].0;
        let better = n >= 1 && n != u32::MAX && match best {
            Some(b) => n < tabs[b].0,
            None => true,
        };
        lemma_best_from(tabs, k + 1, if better { Some(k) } else { best });
    }
}

proof fn lemma_first_zero(tabs: Seq<(u32, usize)>, k: int)
    requires
        0 <= k,
    ensures
        first_zero(tabs, k) matches Some(z) ==> 0 <= z < tabs.len(),
    decreases tabs.len() - k,
{
    if k < tabs.len() && tabs[k].0 != 0 {
        lemma_first_zero(tabs, k + 1);
    }
}

/// Law: the cursor of an expansion is a character boundary of its text: the byte length of some
/// prefix of the text.
pub proof fn law_cursor_on_boundary(body: Seq<char>)
    ensures
        on_boundary(expansion_of(body).0, expansion_of(body).1),
{
    let init = Snip { i: 0, out: seq![], tabs: seq![] };
    lemma_walk_ok(body, init, false);
    let st = walk(body, init, false);
    lemma_best_from(st.tabs, 0, None);
    lemma_first_zero(st.tabs, 0);
    lemma_boundary_end(st.out);
}


/// With no `$` or `\` left, the top-level walk copies the rest of the body and adds no tabstop.
proof fn lemma_walk_plain(cs: Seq<char>, st: Snip)
    requires
        0 <= st.i <= cs.len(),
        forall|j: int| 0 <= j < cs.len() ==> #[trigger] cs[j] != '$' && cs[j] != '\\',
    ensures
        walk(cs, st, false) == (Snip { i: cs.len() as int, out: st.out + cs.skip(st.i), tabs: st.tabs }),
    decreases cs.len() - st.i,
{
    if st.i == cs.len() {
        assert(st.out + cs.skip(st.i) =~= st.out);
    } else {
        let c = cs[st.i];
        let next = Snip { i: st.i + 1, out: st.out.push(c), ..st };
        lemma_walk_plain(cs, next);
        assert(st.out.push(c) + cs.skip(st.i + 1) =~= st.out + cs.skip(st.i));
    }
}

/// Law: a snippet body with no `$` and no `\` expands to itself, with the cursor at its end.
pub proof fn law_plain_body_expands_to_itself(body: Seq<char>)
    requires
        !body.contains('$'),
        !body.contains('\\'),
    ensures
        expansion_of(body) == (body, byte_len(body)),
{
    let init = Snip { i: 0, out: seq![], tabs: seq![] };
    assert forall|j: int| 0 <= j < body.len() implies #[trigger] body[j] != '$' && body[j] != '\\' by {
        if body[j] == '$' {
            assert(body.contains('$'));
        }
        if body[j] == '\\' {
            assert(body.contains('\\'));
        }
    }
    lemma_walk_plain(body, init);
    assert(Seq::<char>::empty() + body.skip(0) =~= body);
    let st = walk(body, init, false);
    assert(st.tabs.len() == 0);
    assert(best_from(st.tabs, 0, None) is None);
    assert(first_zero(st.tabs, 0) is None);
}

} // verus!
