//! The Vim operators (`d`, `c`, `y`, the case operators, the shifts, `=`, `gq`/`gw`) and what
//! the case and shift operators do.
use vstd::prelude::*;

verus! {

/// How a case operator changes letters.
#[derive(Clone, Copy, PartialEq, Eq, Debug, Structural)]
pub enum WordCase {
    /// `gu`: lowercase.
    Downcase,
    /// `gU`: uppercase.
    Upcase,
    /// `g~`: swap case.
    Toggle,
    /// `g?`: ROT13.
    Rot13,
    /// Emacs `M-c`: the first letter of each word up, the rest down.
    Capitalize,
}

/// An operator.
#[derive(Clone, Copy, PartialEq, Eq, Debug, Structural)]
pub enum Op {
    Delete,
    Change,
    Yank,
    /// `gu`, `gU`, `g~`, `g?`.
    CaseLower,
    CaseUpper,
    CaseToggle,
    Rot13,
    /// `>` and `<`: indent the lines right or left.
    ShiftRight,
    ShiftLeft,
    /// `=`: reindent the lines to their bracket depth.
    Reindent,
    /// `gq` (the caret moves to the last reformatted line) and `gw` (it stays).
    Format,
    FormatKeep,
}

impl Op {
    /// The change a case operator makes (none for the other operators).
    pub fn case(self) -> (r: Option<WordCase>)
        ensures
            r == match self {
                Op::CaseLower => Some(WordCase::Downcase),
                Op::CaseUpper => Some(WordCase::Upcase),
                Op::CaseToggle => Some(WordCase::Toggle),
                Op::Rot13 => Some(WordCase::Rot13),
                _ => None::<WordCase>,
            },
    {
        match self {
            Op::CaseLower => Some(WordCase::Downcase),
            Op::CaseUpper => Some(WordCase::Upcase),
            Op::CaseToggle => Some(WordCase::Toggle),
            Op::Rot13 => Some(WordCase::Rot13),
            _ => None,
        }
    }

    /// Whether this is a shift operator, and its direction (`Some(true)` left, `Some(false)`
    /// right).
    pub fn shift(self) -> (r: Option<bool>)
        ensures
            r == match self {
                Op::ShiftLeft => Some(true),
                Op::ShiftRight => Some(false),
                _ => None::<bool>,
            },
    {
        match self {
            Op::ShiftLeft => Some(true),
            Op::ShiftRight => Some(false),
            _ => None,
        }
    }
}

} // verus!
