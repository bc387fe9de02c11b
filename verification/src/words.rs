//! Character-sequence helpers for the command-line parsers: Unicode whitespace, trimming,
//! prefixes, unsigned integer parsing and whitespace tokenizing, each stated over `Seq<char>`.
use vstd::prelude::*;
use crate::text::{chars_of, digit_value, is_digit};

verus! {

/// Whether `c` has the Unicode `White_Space` property (what `char::is_whitespace` tests).
pub open spec fn is_ws(c: char) -> bool {
    ||| c == '\t' || c == '\n' || c == '\u{0B}' || c == '\u{0C}' || c == '\r' || c == ' '
    ||| c == '\u{85}' || c == '\u{A0}' || c == '\u{1680}'
    ||| ('\u{2000}' <= c && c <= '\u{200A}')
    ||| c == '\u{2028}' || c == '\u{2029}' || c == '\u{202F}' || c == '\u{205F}' || c == '\u{3000}'
}

/// Whether `c` is Unicode whitespace.
pub fn is_whitespace(c: char) -> (r: bool)
    ensures
        r == is_ws(c),
{
    c == '\t' || c == '\n' || c == '\u{0B}' || c == '\u{0C}' || c == '\r' || c == ' ' || c == '\u{85}'
        || c == '\u{A0}' || c == '\u{1680}' || ('\u{2000}' <= c && c <= '\u{200A}') || c == '\u{2028}'
        || c == '\u{2029}' || c == '\u{202F}' || c == '\u{205F}' || c == '\u{3000}'
}

/// The first index from `i` on that is not whitespace (or the length).
pub open spec fn first_non_ws(s: Seq<char>, i: int) -> int
    decreases s.len() - i,
{
    if i < 0 || i >= s.len() {
        s.len() as int
    } else if is_ws(s[i]) {
        first_non_ws(s, i + 1)
    } else {
        i
    }
}

/// One past the last non-whitespace index below `j` (or 0).
pub open spec fn end_non_ws(s: Seq<char>, j: int) -> int
    decreases j,
{
    if j <= 0 || j > s.len() {
        0
    } else if is_ws(s[j - 1]) {
        end_non_ws(s, j - 1)
    } else {
        j
    }
}

/// `s` without leading whitespace.
pub open spec fn trim_start_of(s: Seq<char>) -> Seq<char> {
    s.skip(first_non_ws(s, 0))
}

/// `s` without trailing whitespace.
pub open spec fn trim_end_of(s: Seq<char>) -> Seq<char> {
    s.take(end_non_ws(s, s.len() as int))
}

/// `s` without leading and trailing whitespace.
pub open spec fn trim_of(s: Seq<char>) -> Seq<char> {
    trim_end_of(trim_start_of(s))
}

/// `s` without the prefix `p`, when it has it.
pub open spec fn strip_prefix_of(s: Seq<char>, p: Seq<char>) -> Option<Seq<char>> {
    if p.is_prefix_of(s) { Some(s.skip(p.len() as int)) } else { None }
}

/// The decimal value of a run of ASCII digits.
pub open spec fn digits_value(t: Seq<char>) -> nat
    decreases t.len(),
{
    if t.len() == 0 {
        0
    } else {
        digits_value(t.drop_last()) * 10 + digit_value(t.last()) as nat
    }
}

/// Every character of `t` is an ASCII digit.
pub open spec fn all_digits(t: Seq<char>) -> bool {
    forall|k: int| 0 <= k < t.len() ==> #[trigger] is_digit(t[k])
}

/// What `str::parse` gives for an unsigned integer type whose maximum is `max`: an optional `+`,
/// then at least one ASCII digit, and a value that fits.
pub open spec fn parse_uint(s: Seq<char>, max: nat) -> Option<nat> {
    let t = if s.len() > 0 && s[0] == '+' { s.skip(1) } else { s };
    if t.len() > 0 && all_digits(t) && digits_value(t) <= max {
        Some(digits_value(t))
    } else {
        None
    }
}

proof fn lemma_first_non_ws(s: Seq<char>, i: int)
    ensures
        0 <= i ==> i <= first_non_ws(s, i) <= s.len() || i > s.len(),
        0 <= i <= s.len() ==> i <= first_non_ws(s, i) <= s.len(),
    decreases s.len() - i,
{
    if 0 <= i < s.len() && is_ws(s[i]) {
        lemma_first_non_ws(s, i + 1);
    }
}

proof fn lemma_end_non_ws(s: Seq<char>, j: int)
    ensures
        0 <= j <= s.len() ==> 0 <= end_non_ws(s, j) <= j,
    decreases j,
{
    if 0 < j <= s.len() && is_ws(s[j - 1]) {
        lemma_end_non_ws(s, j - 1);
    }
}

/// A copy of `s[from..to]`.
pub fn copy_range(s: &[char], from: usize, to: usize) -> (r: Vec<char>)
    requires
        from <= to <= s@.len(),
    ensures
        r@ == s@.subrange(from as int, to as int),
{
    let mut v: Vec<char> = Vec::new();
    let mut k = from;
    while k < to
        invariant
            from <= k <= to <= s@.len(),
            v@ == s@.subrange(from as int, k as int),
        decreases to - k,
    {
        v.push(s[k]);
        assert(v@ =~= s@.subrange(from as int, k + 1));
        k += 1;
    }
    v
}

/// The index of the first non-whitespace character from `i` on.
fn skip_ws(s: &[char], i: usize) -> (r: usize)
    requires
        i <= s@.len(),
    ensures
        r == first_non_ws(s@, i as int),
        i <= r <= s@.len(),
{
    proof {
        lemma_first_non_ws(s@, i as int);
    }
    let mut k = i;
    while k < s.len() && is_whitespace(s[k])
        invariant
            i <= k <= s@.len(),
            first_non_ws(s@, k as int) == first_non_ws(s@, i as int),
        decreases s.len() - k,
    {
        k += 1;
    }
    k
}

/// `s` without leading whitespace.
pub fn trim_start(s: &[char]) -> (r: Vec<char>)
    ensures
        r@ == trim_start_of(s@),
{
    let a = skip_ws(s, 0);
    let r = copy_range(s, a, s.len());
    assert(r@ =~= trim_start_of(s@));
    r
}

/// `s` without trailing whitespace.
pub fn trim_end(s: &[char]) -> (r: Vec<char>)
    ensures
        r@ == trim_end_of(s@),
{
    proof {
        lemma_end_non_ws(s@, s@.len() as int);
    }
    let mut j = s.len();
    while j > 0 && is_whitespace(s[j - 1])
        invariant
            j <= s@.len(),
            end_non_ws(s@, j as int) == end_non_ws(s@, s@.len() as int),
        decreases j,
    {
        j -= 1;
    }
    let r = copy_range(s, 0, j);
    assert(r@ =~= trim_end_of(s@));
    r
}

/// `s` without leading and trailing whitespace.
pub fn trim(s: &[char]) -> (r: Vec<char>)
    ensures
        r@ == trim_of(s@),
{
    let t = trim_start(s);
    trim_end(t.as_slice())
}

/// Whether `s` begins with the characters of `p`.
pub fn starts_with_lit(s: &[char], p: &str) -> (r: bool)
    ensures
        r == p@.is_prefix_of(s@),
{
    let pv = chars_of(p);
    if pv.len() > s.len() {
        return false;
    }
    let mut k: usize = 0;
    while k < pv.len()
        invariant
            k <= pv@.len() <= s@.len(),
            pv@ == p@,
            forall|j: int| 0 <= j < k ==> pv@[j] == s@[j],
        decreases pv.len() - k,
    {
        if pv[k] != s[k] {
            return false;
        }
        k += 1;
    }
    true
}

/// Whether `s` holds exactly the characters of `p`.
pub fn eq_lit(s: &[char], p: &str) -> (r: bool)
    ensures
        r == (s@ == p@),
{
    let pv = chars_of(p);
    if pv.len() != s.len() {
        return false;
    }
    let r = starts_with_lit(s, p);
    proof {
        if r {
            assert(s@ =~= p@);
        }
    }
    r
}

/// `s` without the prefix `p`, when it has it.
pub fn strip_prefix(s: &[char], p: &str) -> (r: Option<Vec<char>>)
    ensures
        r matches Some(v) ==> strip_prefix_of(s@, p@) == Some(v@),
        r is None ==> strip_prefix_of(s@, p@) is None,
{
    if starts_with_lit(s, p) {
        let n = chars_of(p).len();
        let v = copy_range(s, n, s.len());
        assert(v@ =~= s@.skip(p@.len() as int));
        Some(v)
    } else {
        None
    }
}

/// Whether `s` contains `c`.
pub fn contains_char(s: &[char], c: char) -> (r: bool)
    ensures
        r == s@.contains(c),
{
    let mut k: usize = 0;
    while k < s.len()
        invariant
            k <= s@.len(),
            forall|j: int| 0 <= j < k ==> s@[j] != c,
        decreases s.len() - k,
    {
        if s[k] == c {
            assert(s@[k as int] == c);
            return true;
        }
        k += 1;
    }
    false
}

/// What `str::parse` gives for an unsigned integer no greater than `max`.
pub fn parse_uint_max(s: &[char], max: u64) -> (r: Option<u64>)
    ensures
        r matches Some(v) ==> parse_uint(s@, max as nat) == Some(v as nat),
        r is None ==> parse_uint(s@, max as nat) is None,
{
    let start: usize = if s.len() > 0 && s[0] == '+' { 1 } else { 0 };
    let ghost t = if s@.len() > 0 && s@[0] == '+' { s@.skip(1) } else { s@ };
    assert(t =~= s@.subrange(start as int, s@.len() as int));
    if start >= s.len() {
        return None;
    }
    let mut acc: u64 = 0;
    let mut k = start;
    assert(t.take(0) =~= Seq::<char>::empty());
    while k < s.len()
        invariant
            start <= k <= s@.len(),
            t == s@.subrange(start as int, s@.len() as int),
            t == (if s@.len() > 0 && s@[0] == '+' { s@.skip(1) } else { s@ }),
            all_digits(t.take(k - start)),
            acc as nat == digits_value(t.take(k - start)),
            acc <= max,
        decreases s.len() - k,
    {
        let c = s[k];
        let ghost j = k - start;
        assert(t[j] == c);
        assert(t.take(j + 1).drop_last() =~= t.take(j));
        if !('0' <= c && c <= '9') {
            assert(!is_digit(t[j]));
            assert(!all_digits(t));
            return None;
        }
        let d = (c as u64) - ('0' as u64);
        assert(d as nat == digit_value(c) as nat);
        if acc > (u64::MAX - d) / 10 {
            proof {
                assert(acc * 10 + d > u64::MAX) by (nonlinear_arith)
                    requires acc > (u64::MAX - d) / 10, d <= 9;
                lemma_digits_grow(t, j + 1, max as nat);
            }
            return None;
        }
        let v = acc * 10 + d;
        if v > max {
            proof {
                lemma_digits_grow(t, j + 1, max as nat);
            }
            return None;
        }
        proof {
            assert forall|q: int| 0 <= q < j + 1 implies #[trigger] is_digit(t.take(j + 1)[q]) by {
                if q < j {
                    assert(t.take(j + 1)[q] == t.take(j)[q]);
                }
            }
        }
        acc = v;
        k += 1;
    }
    assert(t.take(k - start) =~= t);
    Some(acc)
}

/// Once a digit prefix exceeds `max`, the whole run does too (or is not all digits).
proof fn lemma_digits_grow(t: Seq<char>, n: int, max: nat)
    requires
        0 < n <= t.len(),
        digits_value(t.take(n)) > max || digits_value(t.take(n - 1)) * 10 + digit_value(t[n - 1]) > max,
        all_digits(t.take(n - 1)),
        is_digit(t[n - 1]),
    ensures
        !(all_digits(t) && digits_value(t) <= max),
    decreases t.len() - n,
{
    assert(t.take(n).drop_last() =~= t.take(n - 1));
    if n == t.len() {
        assert(t.take(n) =~= t);
    } else if all_digits(t) {
        assert(t.take(n + 1).drop_last() =~= t.take(n));
        assert(all_digits(t.take(n)));
        lemma_digits_grow(t, n + 1, max);
    }
}

} // verus!
