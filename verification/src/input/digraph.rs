//! Insert-mode digraph table for `i_CTRL-K {c1}{c2}`.
//!
//! In Insert mode `CTRL-K` followed by two characters inserts the corresponding digraph glyph —
//! e.g. `CTRL-K a :` → `ä`, `CTRL-K e '` → `é`, `CTRL-K C o` → `©`. This is a curated subset of
//! Vim's table (the common accented Latin letters and a handful of symbols), taken from Vim's
//! `:digraphs`. Lookup is case-sensitive, exactly like Vim.
use vstd::prelude::*;

verus! {

/// The curated `(c1, c2, glyph)` table.
pub open spec fn table_spec() -> Seq<(char, char, char)> {
    seq![
        ('a', ':', '\u{00E4}'),
        ('A', ':', '\u{00C4}'),
        ('e', ':', '\u{00EB}'),
        ('E', ':', '\u{00CB}'),
        ('i', ':', '\u{00EF}'),
        ('I', ':', '\u{00CF}'),
        ('o', ':', '\u{00F6}'),
        ('O', ':', '\u{00D6}'),
        ('u', ':', '\u{00FC}'),
        ('U', ':', '\u{00DC}'),
        ('y', ':', '\u{00FF}'),
        ('a', '\'', '\u{00E1}'),
        ('A', '\'', '\u{00C1}'),
        ('e', '\'', '\u{00E9}'),
        ('E', '\'', '\u{00C9}'),
        ('i', '\'', '\u{00ED}'),
        ('I', '\'', '\u{00CD}'),
        ('o', '\'', '\u{00F3}'),
        ('O', '\'', '\u{00D3}'),
        ('u', '\'', '\u{00FA}'),
        ('U', '\'', '\u{00DA}'),
        ('y', '\'', '\u{00FD}'),
        ('a', '`', '\u{00E0}'),
        ('A', '`', '\u{00C0}'),
        ('e', '`', '\u{00E8}'),
        ('E', '`', '\u{00C8}'),
        ('i', '`', '\u{00EC}'),
        ('I', '`', '\u{00CC}'),
        ('o', '`', '\u{00F2}'),
        ('O', '`', '\u{00D2}'),
        ('u', '`', '\u{00F9}'),
        ('U', '`', '\u{00D9}'),
        ('a', '^', '\u{00E2}'),
        ('A', '^', '\u{00C2}'),
        ('e', '^', '\u{00EA}'),
        ('E', '^', '\u{00CA}'),
        ('i', '^', '\u{00EE}'),
        ('I', '^', '\u{00CE}'),
        ('o', '^', '\u{00F4}'),
        ('O', '^', '\u{00D4}'),
        ('u', '^', '\u{00FB}'),
        ('U', '^', '\u{00DB}'),
        ('a', '~', '\u{00E3}'),
        ('A', '~', '\u{00C3}'),
        ('n', '~', '\u{00F1}'),
        ('N', '~', '\u{00D1}'),
        ('o', '~', '\u{00F5}'),
        ('O', '~', '\u{00D5}'),
        ('a', 'e', '\u{00E6}'),
        ('A', 'E', '\u{00C6}'),
        ('o', 'e', '\u{0153}'),
        ('O', 'E', '\u{0152}'),
        ('s', 's', '\u{00DF}'),
        ('o', '/', '\u{00F8}'),
        ('O', '/', '\u{00D8}'),
        ('E', 'u', '\u{20AC}'),
        ('P', 'd', '\u{00A3}'),
        ('C', 't', '\u{00A2}'),
        ('S', 'E', '\u{00A7}'),
        ('C', 'o', '\u{00A9}'),
        ('R', 'g', '\u{00AE}'),
        ('M', 'y', '\u{00B5}'),
        ('D', 'G', '\u{00B0}'),
        ('+', '-', '\u{00B1}'),
        ('*', 'X', '\u{00D7}'),
        ('1', '2', '\u{00BD}'),
        ('1', '4', '\u{00BC}'),
        ('3', '4', '\u{00BE}'),
        ('.', 'M', '\u{00B7}'),
        ('?', 'I', '\u{00BF}'),
        ('!', 'I', '\u{00A1}'),
        ('<', '<', '\u{00AB}'),
        ('>', '>', '\u{00BB}'),
        ('-', '>', '\u{2192}'),
        ('<', '-', '\u{2190}'),
        ('-', '!', '\u{2191}'),
        ('-', 'v', '\u{2193}'),
        ('O', 'K', '\u{2713}'),
        ('X', 'X', '\u{2717}'),
    ]
}

/// The glyph of the first entry of `t` whose code is `c1 c2`.
pub open spec fn lookup(t: Seq<(char, char, char)>, c1: char, c2: char) -> Option<char>
    decreases t.len(),
{
    if t.len() == 0 {
        None
    } else if t[0].0 == c1 && t[0].1 == c2 {
        Some(t[0].2)
    } else {
        lookup(t.drop_first(), c1, c2)
    }
}

/// The curated `(c1, c2, glyph)` table, grouped by diacritic and category.
pub fn table() -> (t: Vec<(char, char, char)>)
    ensures
        t@ == table_spec(),
{
    let t = vec![
        ('a', ':', '\u{00E4}'),
        ('A', ':', '\u{00C4}'),
        ('e', ':', '\u{00EB}'),
        ('E', ':', '\u{00CB}'),
        ('i', ':', '\u{00EF}'),
        ('I', ':', '\u{00CF}'),
        ('o', ':', '\u{00F6}'),
        ('O', ':', '\u{00D6}'),
        ('u', ':', '\u{00FC}'),
        ('U', ':', '\u{00DC}'),
        ('y', ':', '\u{00FF}'),
        ('a', '\'', '\u{00E1}'),
        ('A', '\'', '\u{00C1}'),
        ('e', '\'', '\u{00E9}'),
        ('E', '\'', '\u{00C9}'),
        ('i', '\'', '\u{00ED}'),
        ('I', '\'', '\u{00CD}'),
        ('o', '\'', '\u{00F3}'),
        ('O', '\'', '\u{00D3}'),
        ('u', '\'', '\u{00FA}'),
        ('U', '\'', '\u{00DA}'),
        ('y', '\'', '\u{00FD}'),
        ('a', '`', '\u{00E0}'),
        ('A', '`', '\u{00C0}'),
        ('e', '`', '\u{00E8}'),
        ('E', '`', '\u{00C8}'),
        ('i', '`', '\u{00EC}'),
        ('I', '`', '\u{00CC}'),
        ('o', '`', '\u{00F2}'),
        ('O', '`', '\u{00D2}'),
        ('u', '`', '\u{00F9}'),
        ('U', '`', '\u{00D9}'),
        ('a', '^', '\u{00E2}'),
        ('A', '^', '\u{00C2}'),
        ('e', '^', '\u{00EA}'),
        ('E', '^', '\u{00CA}'),
        ('i', '^', '\u{00EE}'),
        ('I', '^', '\u{00CE}'),
        ('o', '^', '\u{00F4}'),
        ('O', '^', '\u{00D4}'),
        ('u', '^', '\u{00FB}'),
        ('U', '^', '\u{00DB}'),
        ('a', '~', '\u{00E3}'),
        ('A', '~', '\u{00C3}'),
        ('n', '~', '\u{00F1}'),
        ('N', '~', '\u{00D1}'),
        ('o', '~', '\u{00F5}'),
        ('O', '~', '\u{00D5}'),
        ('a', 'e', '\u{00E6}'),
        ('A', 'E', '\u{00C6}'),
        ('o', 'e', '\u{0153}'),
        ('O', 'E', '\u{0152}'),
        ('s', 's', '\u{00DF}'),
        ('o', '/', '\u{00F8}'),
        ('O', '/', '\u{00D8}'),
        ('E', 'u', '\u{20AC}'),
        ('P', 'd', '\u{00A3}'),
        ('C', 't', '\u{00A2}'),
        ('S', 'E', '\u{00A7}'),
        ('C', 'o', '\u{00A9}'),
        ('R', 'g', '\u{00AE}'),
        ('M', 'y', '\u{00B5}'),
        ('D', 'G', '\u{00B0}'),
        ('+', '-', '\u{00B1}'),
        ('*', 'X', '\u{00D7}'),
        ('1', '2', '\u{00BD}'),
        ('1', '4', '\u{00BC}'),
        ('3', '4', '\u{00BE}'),
        ('.', 'M', '\u{00B7}'),
        ('?', 'I', '\u{00BF}'),
        ('!', 'I', '\u{00A1}'),
        ('<', '<', '\u{00AB}'),
        ('>', '>', '\u{00BB}'),
        ('-', '>', '\u{2192}'),
        ('<', '-', '\u{2190}'),
        ('-', '!', '\u{2191}'),
        ('-', 'v', '\u{2193}'),
        ('O', 'K', '\u{2713}'),
        ('X', 'X', '\u{2717}'),
    ];
    assert(t@ =~= table_spec());
    t
}

/// Look up the digraph glyph for the two-character code `c1 c2`. Returns `None` for any pair not
/// in the curated table; the caller applies Vim's fallback (insert the second char literally).
pub fn digraph(c1: char, c2: char) -> (r: Option<char>)
    ensures
        r == lookup(table_spec(), c1, c2),
{
    let t = table();
    let mut i: usize = 0;
    assert(t@.skip(0) =~= t@);
    while i < t.len()
        invariant
            t@ == table_spec(),
            i <= t@.len(),
            lookup(t@.skip(i as int), c1, c2) == lookup(t@, c1, c2),
        decreases t.len() - i,
    {
        assert(t@.skip(i as int).drop_first() =~= t@.skip(i + 1));
        let (a, b, g) = t[i];
        if a == c1 && b == c2 {
            return Some(g);
        }
        i += 1;
    }
    assert(t@.skip(i as int).len() == 0);
    None
}

/// No entry of `t` from `k` on has the code `c1 c2`.
pub open spec fn code_absent(t: Seq<(char, char, char)>, c1: char, c2: char, k: int) -> bool
    decreases t.len() - k,
{
    if k < 0 || k >= t.len() {
        true
    } else {
        !(t[k].0 == c1 && t[k].1 == c2) && code_absent(t, c1, c2, k + 1)
    }
}

/// No two entries of `t` from `i` on share a code.
pub open spec fn codes_unique_from(t: Seq<(char, char, char)>, i: int) -> bool
    decreases t.len() - i,
{
    if i < 0 || i >= t.len() {
        true
    } else {
        code_absent(t, t[i].0, t[i].1, i + 1) && codes_unique_from(t, i + 1)
    }
}

proof fn lemma_code_absent(t: Seq<(char, char, char)>, c1: char, c2: char, k: int, j: int)
    requires
        0 <= k <= j < t.len(),
        code_absent(t, c1, c2, k),
    ensures
        !(t[j].0 == c1 && t[j].1 == c2),
    decreases j - k,
{
    if k < j {
        lemma_code_absent(t, c1, c2, k + 1, j);
    }
}

proof fn lemma_codes_unique(t: Seq<(char, char, char)>, i: int, a: int, b: int)
    requires
        0 <= i <= a < b < t.len(),
        codes_unique_from(t, i),
    ensures
        !(t[a].0 == t[b].0 && t[a].1 == t[b].1),
    decreases a - i,
{
    if i < a {
        lemma_codes_unique(t, i + 1, a, b);
    } else {
        lemma_code_absent(t, t[a].0, t[a].1, a + 1, b);
    }
}

#[verifier::rlimit(100)]
/// Law: every code of the table names one glyph: no two entries share a `(c1, c2)` code.
pub proof fn law_table_codes_unique(a: int, b: int)
    requires
        0 <= a < b < table_spec().len(),
    ensures
        !(table_spec()[a].0 == table_spec()[b].0 && table_spec()[a].1 == table_spec()[b].1),
{
    assert(codes_unique_from(table_spec(), 0)) by {
        reveal_with_fuel(codes_unique_from, 82);
        reveal_with_fuel(code_absent, 82);
    }
    lemma_codes_unique(table_spec(), 0, a, b);
}

} // verus!
