//! Insert-mode `CTRL-V`: the next key inserted literally, or a character entered by its code
//! (`CTRL-V 065`, `CTRL-V o101`, `CTRL-V x41`, `CTRL-V u263a`, `CTRL-V U0001f600`). Each key
//! moves the entry one step; the step says what to insert and whether collection goes on.
use vstd::prelude::*;
use vstd::utf8::char_u32_cast;
use crate::keys::{has_ctrl, KeyCode, KeyEvent, KeyModifiers};

verus! {

/// The base of a character code.
#[derive(Clone, Copy, PartialEq, Eq, Debug, Structural)]
pub enum LiteralBase {
    /// Decimal, up to three digits, clamped to 255.
    Dec,
    /// Octal (`o`/`O`), up to three digits, clamped to 255.
    Oct,
    /// Hexadecimal: `x`/`X` two digits, `u` four, `U` eight.
    Hex,
}

impl LiteralBase {
    /// The radix of the base.
    pub fn radix(self) -> (r: u32)
        ensures
            r == radix_of(self),
    {
        match self {
            LiteralBase::Dec => 10,
            LiteralBase::Oct => 8,
            LiteralBase::Hex => 16,
        }
    }
}

/// The radix of a base.
pub open spec fn radix_of(b: LiteralBase) -> u32 {
    match b {
        LiteralBase::Dec => 10,
        LiteralBase::Oct => 8,
        LiteralBase::Hex => 16,
    }
}

/// The state of a `CTRL-V` entry.
#[derive(Clone, Copy, PartialEq, Eq, Debug, Structural)]
pub enum LiteralEntry {
    /// `CTRL-V` was typed; the next key chooses a code form or is inserted as it is.
    AwaitFirst,
    /// Collecting the digits of a code: the value so far, how many digits may still come, and how
    /// many came.
    Collecting { base: LiteralBase, value: u32, remaining: u8, count: u8 },
}

/// What a key does to a `CTRL-V` entry.
#[derive(Clone, Copy, PartialEq, Eq, Debug, Structural)]
pub enum LiteralStep {
    /// Go on collecting in this state.
    Collect(LiteralEntry),
    /// Insert this character; the entry is over.
    Insert(char),
    /// The entry is over with nothing inserted.
    Abort,
    /// A key that is no digit ended a code of at least one digit: insert the code's character
    /// (none when it is not a valid one), then handle `key` as ordinary Insert-mode input.
    Finish { resolved: Option<char>, key: KeyEvent },
}

/// `char::from_u32`: the character with code `v`, when `v` is a Unicode scalar value.
#[verifier::external_body]
fn char_from_u32(v: u32) -> (r: Option<char>)
    ensures
        r is Some <==> (v <= 0x10ffff && !(0xd800 <= v && v <= 0xdfff)),
        r matches Some(c) ==> c as u32 == v,
{
    char::from_u32(v)
}

/// What `char::to_digit(radix)` gives for the radixes used here.
pub open spec fn digit_of(c: char, radix: u32) -> Option<u32> {
    let v: int = if '0' <= c && c <= '9' {
        c as int - '0' as int
    } else if 'a' <= c && c <= 'z' {
        c as int - 'a' as int + 10
    } else if 'A' <= c && c <= 'Z' {
        c as int - 'A' as int + 10
    } else {
        36
    };
    if v < radix { Some(v as u32) } else { None }
}

/// `c` as a digit of `radix` (at most 36).
fn to_digit(c: char, radix: u32) -> (r: Option<u32>)
    requires
        radix <= 36,
    ensures
        r == digit_of(c, radix),
{
    let v: u32 = if '0' <= c && c <= '9' {
        (c as u32) - ('0' as u32)
    } else if 'a' <= c && c <= 'z' {
        (c as u32) - ('a' as u32) + 10
    } else if 'A' <= c && c <= 'Z' {
        (c as u32) - ('A' as u32) + 10
    } else {
        36
    };
    if v < radix { Some(v) } else { None }
}

/// The character a code resolves to: decimal and octal codes are clamped to 255; an invalid
/// scalar value gives none.
pub open spec fn resolved_of(base: LiteralBase, value: u32) -> Option<char> {
    let v: u32 = match base {
        LiteralBase::Dec | LiteralBase::Oct => if value > 255 { 255 } else { value },
        LiteralBase::Hex => value,
    };
    if v <= 0x10ffff && !(0xd800 <= v && v <= 0xdfff) { Some(v as char) } else { None }
}

/// Resolves a code (see `resolved_of`).
pub fn resolve_char(base: LiteralBase, value: u32) -> (r: Option<char>)
    ensures
        r == resolved_of(base, value),
{
    let v: u32 = match base {
        LiteralBase::Dec | LiteralBase::Oct => if value > 255 { 255 } else { value },
        LiteralBase::Hex => value,
    };
    let r = char_from_u32(v);
    proof {
        if let Some(c) = r {
            char_u32_cast(c, v);
        }
    }
    r
}

/// A key inserted as it is: `Ctrl` with an ASCII character gives its control character,
/// `Tab`, `Enter`, `Esc` give TAB, CR, ESC, any other character itself; other keys (and `Ctrl`
/// with anything else) insert nothing.
pub open spec fn literal_key_of(key: KeyEvent) -> Option<char> {
    if has_ctrl(key.modifiers) {
        match key.code {
            KeyCode::Char(c) => if (c as u32) < 128 { Some(((c as u32) % 32) as char) } else { None },
            _ => None,
        }
    } else {
        match key.code {
            KeyCode::Char(c) => Some(c),
            KeyCode::Tab => Some('\t'),
            KeyCode::Enter => Some('\r'),
            KeyCode::Esc => Some('\u{1b}'),
            _ => None,
        }
    }
}

/// The character a key inserts as it is (see `literal_key_of`).
pub fn literal_key(key: KeyEvent) -> (r: Option<char>)
    ensures
        r == literal_key_of(key),
{
    if key.modifiers.contains(KeyModifiers::control()) {
        match key.code {
            KeyCode::Char(c) => if (c as u32) < 128 {
                let b: u8 = ((c as u32) % 32) as u8;
                Some(b as char)
            } else {
                None
            },
            _ => None,
        }
    } else {
        match key.code {
            KeyCode::Char(c) => Some(c),
            KeyCode::Tab => Some('\t'),
            KeyCode::Enter => Some('\r'),
            KeyCode::Esc => Some('\u{1b}'),
            _ => None,
        }
    }
}

/// The step of inserting a key as it is.
pub open spec fn literal_insert_step(key: KeyEvent) -> LiteralStep {
    match literal_key_of(key) {
        Some(c) => LiteralStep::Insert(c),
        None => LiteralStep::Abort,
    }
}

/// The first key after `CTRL-V`: a decimal digit starts a three-digit decimal code; `o`/`O`
/// an octal one, `x`/`X` a two-digit hex one, `u` a four-digit and `U` an eight-digit one;
/// any other key is inserted as it is.
pub open spec fn first_step_of(key: KeyEvent) -> LiteralStep {
    if !has_ctrl(key.modifiers) && key.code is Char {
        let c = key.code->Char_0;
        if digit_of(c, 10) is Some {
            LiteralStep::Collect(
                LiteralEntry::Collecting {
                    base: LiteralBase::Dec,
                    value: digit_of(c, 10)->0,
                    remaining: 2,
                    count: 1,
                },
            )
        } else if c == 'o' || c == 'O' {
            LiteralStep::Collect(LiteralEntry::Collecting { base: LiteralBase::Oct, value: 0, remaining: 3, count: 0 })
        } else if c == 'x' || c == 'X' {
            LiteralStep::Collect(LiteralEntry::Collecting { base: LiteralBase::Hex, value: 0, remaining: 2, count: 0 })
        } else if c == 'u' {
            LiteralStep::Collect(LiteralEntry::Collecting { base: LiteralBase::Hex, value: 0, remaining: 4, count: 0 })
        } else if c == 'U' {
            LiteralStep::Collect(LiteralEntry::Collecting { base: LiteralBase::Hex, value: 0, remaining: 8, count: 0 })
        } else {
            literal_insert_step(key)
        }
    } else {
        literal_insert_step(key)
    }
}

/// The first key after `CTRL-V` (see `first_step_of`).
pub fn literal_first(key: KeyEvent) -> (s: LiteralStep)
    ensures
        s == first_step_of(key),
{
    if !key.modifiers.contains(KeyModifiers::control()) {
        if let KeyCode::Char(c) = key.code {
            if let Some(d) = to_digit(c, 10) {
                return LiteralStep::Collect(
                    LiteralEntry::Collecting { base: LiteralBase::Dec, value: d, remaining: 2, count: 1 },
                );
            }
            let form: Option<(LiteralBase, u8)> = if c == 'o' || c == 'O' {
                Some((LiteralBase::Oct, 3))
            } else if c == 'x' || c == 'X' {
                Some((LiteralBase::Hex, 2))
            } else if c == 'u' {
                Some((LiteralBase::Hex, 4))
            } else if c == 'U' {
                Some((LiteralBase::Hex, 8))
            } else {
                None
            };
            if let Some((base, budget)) = form {
                return LiteralStep::Collect(
                    LiteralEntry::Collecting { base, value: 0, remaining: budget, count: 0 },
                );
            }
        }
    }
    match literal_key(key) {
        Some(c) => LiteralStep::Insert(c),
        None => LiteralStep::Abort,
    }
}

/// The largest value a code may hold while `remaining` digits may still come, so that the
/// digits left cannot overflow: at most the base's digit count in all.
pub open spec fn value_cap(base: LiteralBase, remaining: u8) -> int {
    match base {
        LiteralBase::Hex => if remaining >= 8 {
            1
        } else if remaining == 7 {
            0x10
        } else if remaining == 6 {
            0x100
        } else if remaining == 5 {
            0x1000
        } else if remaining == 4 {
            0x1_0000
        } else if remaining == 3 {
            0x10_0000
        } else if remaining == 2 {
            0x100_0000
        } else {
            0x1000_0000
        },
        LiteralBase::Dec => if remaining >= 3 {
            1
        } else if remaining == 2 {
            10
        } else {
            100
        },
        LiteralBase::Oct => if remaining >= 3 {
            1
        } else if remaining == 2 {
            8
        } else {
            64
        },
    }
}

/// A collecting state that the steps can reach: at least one digit may still come, and the
/// value stays below the cap for that many.
pub open spec fn collecting_ok(e: LiteralEntry) -> bool {
    match e {
        LiteralEntry::AwaitFirst => true,
        LiteralEntry::Collecting { base, value, remaining, count } => {
            &&& 1 <= remaining
            &&& remaining <= (if base is Hex { 8int } else { 3int })
            &&& value < value_cap(base, remaining)
            &&& count as int + remaining as int <= 8
        },
    }
}

/// A key while collecting: a digit of the base extends the code (and resolves it when no more
/// may come); any other key inserts the code's character, then is handled as ordinary input;
/// when no digit came at all, the key is instead inserted as it is.
pub open spec fn collect_step_of(base: LiteralBase, value: u32, remaining: u8, count: u8, key: KeyEvent) -> LiteralStep {
    let digit = if !has_ctrl(key.modifiers) && key.code is Char {
        digit_of(key.code->Char_0, radix_of(base))
    } else {
        None
    };
    match digit {
        Some(d) => {
            let v = (value * radix_of(base) + d) as u32;
            if remaining == 1 {
                match resolved_of(base, v) {
                    Some(c) => LiteralStep::Insert(c),
                    None => LiteralStep::Abort,
                }
            } else {
                LiteralStep::Collect(
                    LiteralEntry::Collecting { base, value: v, remaining: (remaining - 1) as u8, count: (count + 1) as u8 },
                )
            }
        },
        None => if count == 0 {
            literal_insert_step(key)
        } else {
            LiteralStep::Finish { resolved: resolved_of(base, value), key }
        },
    }
}

/// A key while collecting (see `collect_step_of`).
pub fn literal_collect(base: LiteralBase, value: u32, remaining: u8, count: u8, key: KeyEvent) -> (s: LiteralStep)
    requires
        collecting_ok(LiteralEntry::Collecting { base, value, remaining, count }),
    ensures
        s == collect_step_of(base, value, remaining, count, key),
        s matches LiteralStep::Collect(e) ==> collecting_ok(e),
{
    let radix = base.radix();
    let digit = match key.code {
        KeyCode::Char(c) => if !key.modifiers.contains(KeyModifiers::control()) {
            to_digit(c, radix)
        } else {
            None
        },
        _ => None,
    };
    match digit {
        Some(d) => {
            proof {
                match base {
                    LiteralBase::Hex => {
                        assert(value * 16 + d < value_cap(base, remaining) * 16);
                    },
                    LiteralBase::Dec => {
                        assert(value * 10 + d < value_cap(base, remaining) * 10);
                    },
                    LiteralBase::Oct => {
                        assert(value * 8 + d < value_cap(base, remaining) * 8);
                    },
                }
            }
            let v = value * radix + d;
            if remaining == 1 {
                match resolve_char(base, v) {
                    Some(c) => LiteralStep::Insert(c),
                    None => LiteralStep::Abort,
                }
            } else {
                LiteralStep::Collect(
                    LiteralEntry::Collecting { base, value: v, remaining: remaining - 1, count: count + 1 },
                )
            }
        },
        None => if count == 0 {
            match literal_key(key) {
                Some(c) => LiteralStep::Insert(c),
                None => LiteralStep::Abort,
            }
        } else {
            LiteralStep::Finish { resolved: resolve_char(base, value), key }
        },
    }
}

/// Law: every state that the first key starts satisfies `collecting_ok`.
pub proof fn law_first_step_ok(key: KeyEvent)
    ensures
        first_step_of(key) matches LiteralStep::Collect(e) ==> collecting_ok(e),
{
}

} // verus!
