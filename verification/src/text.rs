//! Character-level helpers shared by the parsers: conversion between `str`/`String` and
//! character vectors, and comparisons on characters.
use vstd::prelude::*;
use vstd::utf8::*;
use vstd::string::StringSliceAdditionalSpecFns;

verus! {

/// The characters of `s`, in order.
pub fn chars_of(s: &str) -> (v: Vec<char>)
    ensures
        v@ == s@,
{
    let mut v: Vec<char> = Vec::new();
    for c in it: s.chars()
        invariant
            v@ == it.seq().take(it.index() as int),
            it.seq() == s@,
    {
        v.push(c);
    }
    v
}

/// `String::push`: appends one character.
#[verifier::external_body]
pub(crate) fn push_char(s: &mut String, c: char)
    ensures
        final(s)@ == old(s)@.push(c),
{
    s.push(c);
}

/// A `String` holding `v[from..to]`.
pub fn string_of_range(v: &[char], from: usize, to: usize) -> (s: String)
    requires
        from <= to <= v@.len(),
    ensures
        s@ == v@.subrange(from as int, to as int),
{
    let mut s = String::new();
    let mut i = from;
    while i < to
        invariant
            from <= i <= to,
            to <= v@.len(),
            s@ == v@.subrange(from as int, i as int),
        decreases to - i,
    {
        push_char(&mut s, v[i]);
        assert(s@ =~= v@.subrange(from as int, i + 1));
        i += 1;
    }
    s
}

/// A `String` holding all of `v`.
pub fn string_of(v: &[char]) -> (s: String)
    ensures
        s@ == v@,
{
    let s = string_of_range(v, 0, v.len());
    assert(v@.subrange(0, v@.len() as int) =~= v@);
    s
}

/// Whether `a[from..from + p.len()]` equals `p` (false when it runs past the end).
pub fn has_at(a: &[char], from: usize, p: &[char]) -> (r: bool)
    requires
        from <= a@.len(),
    ensures
        r == (from + p@.len() <= a@.len() && a@.subrange(from as int, from + p@.len()) == p@),
{
    if p.len() > a.len() - from {
        return false;
    }
    let mut k: usize = 0;
    while k < p.len()
        invariant
            k <= p@.len(),
            from + p@.len() <= a@.len(),
            a@.len() == a.len(),
            forall|j: int| 0 <= j < k ==> a@[from + j] == p@[j],
        decreases p.len() - k,
    {
        if a[from + k] != p[k] {
            assert(a@.subrange(from as int, from + p@.len())[k as int] != p@[k as int]);
            return false;
        }
        k += 1;
    }
    assert(a@.subrange(from as int, from + p@.len()) =~= p@);
    true
}

/// Whether `a` and `b` hold the same characters.
pub fn chars_equal(a: &[char], b: &[char]) -> (r: bool)
    ensures
        r == (a@ == b@),
{
    if a.len() != b.len() {
        return false;
    }
    let r = has_at(a, 0, b);
    assert(a@.subrange(0, b@.len() as int) =~= a@);
    r
}

/// Whether `a` and `b` hold the same characters.
pub fn str_equal(a: &str, b: &str) -> (r: bool)
    ensures
        r == (a@ == b@),
{
    let va = chars_of(a);
    let vb = chars_of(b);
    chars_equal(va.as_slice(), vb.as_slice())
}

/// Whether `s` begins with `p`.
pub fn str_starts_with(s: &str, p: &str) -> (r: bool)
    ensures
        r == p@.is_prefix_of(s@),
{
    let vs = chars_of(s);
    let vp = chars_of(p);
    let r = has_at(vs.as_slice(), 0, vp.as_slice());
    assert(r == (vp@.len() <= vs@.len() && vs@.subrange(0, vp@.len() as int) == vp@));
    proof {
        if vp@.len() <= vs@.len() {
            assert(vs@.subrange(0, vp@.len() as int) == vp@ <==> forall|i: int|
                0 <= i < vp@.len() ==> vp@[i] == vs@[i]) by {
                if forall|i: int| 0 <= i < vp@.len() ==> vp@[i] == vs@[i] {
                    assert(vs@.subrange(0, vp@.len() as int) =~= vp@);
                }
            }
        }
    }
    r
}

/// A copy of a string slice as an owned `String`.
pub fn owned(s: &str) -> (r: String)
    ensures
        r@ == s@,
{
    s.to_owned()
}

/// `std::str::from_utf8`: the string the bytes spell when they are valid UTF-8, else `None`.
#[verifier::external_body]
pub(crate) fn utf8_str(bytes: &[u8]) -> (r: Option<&str>)
    ensures
        r is Some <==> valid_utf8(bytes@),
        r matches Some(s) ==> s.spec_bytes() == bytes@,
{
    std::str::from_utf8(bytes).ok()
}

/// The number of bytes of the UTF-8 encoding of `c`.
pub open spec fn utf8_len(c: char) -> nat {
    encode_scalar(c as u32).len()
}

/// The number of UTF-16 code units of `c`: two for a character outside the Basic Multilingual
/// Plane, else one.
pub open spec fn utf16_units(c: char) -> nat {
    if (c as u32) >= 0x10000 { 2 } else { 1 }
}

/// The number of UTF-16 code units of `s`.
pub open spec fn utf16_len(s: Seq<char>) -> nat
    decreases s.len(),
{
    if s.len() == 0 {
        0
    } else {
        utf16_len(s.drop_last()) + utf16_units(s.last())
    }
}

/// The byte length of the UTF-8 encoding of `c`.
pub fn char_utf8_len(c: char) -> (n: usize)
    ensures
        n == utf8_len(c),
        1 <= n <= 4,
{
    let x = c as u32;
    proof {
        char_is_scalar(c);
    }
    if x < 0x80 {
        1
    } else if x < 0x800 {
        2
    } else if x < 0x10000 {
        3
    } else {
        4
    }
}

/// The number of UTF-16 code units of `c`.
pub fn char_utf16_len(c: char) -> (n: u64)
    ensures
        n == utf16_units(c),
{
    if (c as u32) >= 0x10000 {
        2
    } else {
        1
    }
}

/// Encoding is compatible with appending one character.
pub proof fn lemma_encode_push(s: Seq<char>, c: char)
    ensures
        encode_utf8(s.push(c)) == encode_utf8(s) + encode_scalar(c as u32),
    decreases s.len(),
{
    if s.len() == 0 {
        assert(s.push(c).drop_first() =~= Seq::<char>::empty());
        assert(encode_utf8(s.push(c)) =~= encode_scalar(c as u32) + encode_utf8(Seq::<char>::empty()));
    } else {
        assert(s.push(c).drop_first() =~= s.drop_first().push(c));
        lemma_encode_push(s.drop_first(), c);
        assert(encode_utf8(s.push(c)) =~= encode_scalar(s[0] as u32) + encode_utf8(s.drop_first().push(c)));
    }
}

/// Encoding distributes over concatenation.
pub proof fn lemma_encode_concat(a: Seq<char>, b: Seq<char>)
    ensures
        encode_utf8(a + b) == encode_utf8(a) + encode_utf8(b),
    decreases a.len(),
{
    if a.len() == 0 {
        assert(a + b =~= b);
    } else {
        assert((a + b).drop_first() =~= a.drop_first() + b);
        lemma_encode_concat(a.drop_first(), b);
    }
}

/// A string's bytes are the encoding of its characters, and decoding them gives the characters.
pub proof fn lemma_str_bytes(s: &str)
    ensures
        valid_utf8(s.spec_bytes()),
        decode_utf8(s.spec_bytes()) == s@,
{
    encode_utf8_valid_utf8(s@);
    encode_utf8_decode_utf8(s@);
}

/// Whether `c` has the Unicode `Alphabetic` property.
pub uninterp spec fn char_alphabetic(c: char) -> bool;

/// Whether `c` is alphabetic or numeric in the Unicode sense.
pub uninterp spec fn char_alphanumeric(c: char) -> bool;

/// An ASCII letter.
pub open spec fn is_ascii_letter(c: char) -> bool {
    ('a' <= c && c <= 'z') || ('A' <= c && c <= 'Z')
}

/// Whether `c` is alphabetic: among ASCII exactly the letters, beyond ASCII the Unicode
/// `Alphabetic` property.
pub open spec fn alphabetic(c: char) -> bool {
    if (c as u32) < 0x80 { is_ascii_letter(c) } else { char_alphabetic(c) }
}

/// Whether `c` is alphanumeric: among ASCII exactly the letters and the digits, beyond ASCII the
/// Unicode `Alphabetic` or `Numeric` property.
pub open spec fn alphanumeric(c: char) -> bool {
    if (c as u32) < 0x80 { is_ascii_letter(c) || is_digit(c) } else { char_alphanumeric(c) }
}

/// `char::is_alphabetic`: whether `c` has the Unicode `Alphabetic` property. Among ASCII that
/// property holds of the letters and of nothing else, as std documents; beyond ASCII the result
/// is a name for the property, not spelled out here.
#[verifier::external_body]
pub(crate) fn is_alphabetic(c: char) -> (r: bool)
    ensures
        (c as u32) < 0x80 ==> r == is_ascii_letter(c),
        (c as u32) >= 0x80 ==> r == char_alphabetic(c),
{
    c.is_alphabetic()
}

/// `char::is_alphanumeric`: whether `c` is alphabetic or numeric. Among ASCII that holds of the
/// letters and the digits and of nothing else, as std documents; beyond ASCII the result is a
/// name for the properties, not spelled out here.
#[verifier::external_body]
pub(crate) fn is_alphanumeric(c: char) -> (r: bool)
    ensures
        (c as u32) < 0x80 ==> r == (is_ascii_letter(c) || is_digit(c)),
        (c as u32) >= 0x80 ==> r == char_alphanumeric(c),
{
    c.is_alphanumeric()
}

/// An ASCII decimal digit.
pub open spec fn is_digit(c: char) -> bool {
    '0' <= c <= '9'
}

/// The value of an ASCII decimal digit.
pub open spec fn digit_value(c: char) -> u32 {
    (c as u32 - '0' as u32) as u32
}

} // verus!
