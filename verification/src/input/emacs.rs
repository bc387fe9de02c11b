//! The Emacs prefix argument (`C-u`, `C-u C-u`, `C-u 3 7`), the resolved form of an Emacs key, and
//! the registry of the command names `M-x` accepts.
use vstd::prelude::*;
use crate::input::op::WordCase;
use crate::keys::{has_ctrl, KeyCode, KeyEvent, KeyModifiers};
use crate::text::{chars_equal, chars_of};
use crate::words::{trim, trim_of};

verus! {

/// `x` clamped to the `i32` range, as saturating arithmetic gives.
pub open spec fn clamp_i32(x: int) -> i32 {
    if x > i32::MAX { i32::MAX } else if x < i32::MIN { i32::MIN } else { x as i32 }
}

/// `a * b` saturating at the `i32` bounds.
fn sat_mul(a: i32, b: i32) -> (r: i32)
    ensures
        r == clamp_i32(a * b),
{
    assert(-0x8000_0000_0000_0000 <= (a as i64) * (b as i64) <= 0x7fff_ffff_ffff_ffff) by (nonlinear_arith)
        requires
            -0x8000_0000 <= a < 0x8000_0000,
            -0x8000_0000 <= b < 0x8000_0000,
    ;
    let p: i64 = (a as i64) * (b as i64);
    if p > i32::MAX as i64 {
        i32::MAX
    } else if p < i32::MIN as i64 {
        i32::MIN
    } else {
        p as i32
    }
}

/// `a + b` saturating at the `i32` bounds.
fn sat_add(a: i32, b: i32) -> (r: i32)
    ensures
        r == clamp_i32(a + b),
{
    let p: i64 = (a as i64) + (b as i64);
    if p > i32::MAX as i64 {
        i32::MAX
    } else if p < i32::MIN as i64 {
        i32::MIN
    } else {
        p as i32
    }
}

/// The pending Emacs universal argument.
#[derive(Clone, Copy, PartialEq, Eq, Debug, Structural)]
pub struct EmacsArg {
    /// The accumulated value.
    pub value: i32,
    /// Whether a digit was typed: later digits then append, and `C-u` stops multiplying.
    pub has_digits: bool,
}

impl EmacsArg {
    /// A bare `C-u`: four.
    pub fn ctrl_u() -> (a: EmacsArg)
        ensures
            a == (EmacsArg { value: 4, has_digits: false }),
    {
        EmacsArg { value: 4, has_digits: false }
    }

    /// Another `C-u` multiplies by four until a digit has been typed.
    pub fn times_four(self) -> (a: EmacsArg)
        ensures
            a == (if self.has_digits {
                self
            } else {
                EmacsArg { value: clamp_i32(self.value * 4), has_digits: false }
            }),
    {
        if self.has_digits {
            self
        } else {
            EmacsArg { value: sat_mul(self.value, 4), has_digits: false }
        }
    }

    /// A digit: the first replaces the `C-u` value, later ones append in decimal.
    pub fn push_digit(self, d: u32) -> (a: EmacsArg)
        ensures
            a == (if self.has_digits {
                EmacsArg { value: clamp_i32(clamp_i32(self.value * 10) + (d as i32)), has_digits: true }
            } else {
                EmacsArg { value: d as i32, has_digits: true }
            }),
    {
        let d = #[verifier::truncate] (d as i32);
        if self.has_digits {
            EmacsArg { value: sat_add(sat_mul(self.value, 10), d), has_digits: true }
        } else {
            EmacsArg { value: d, has_digits: true }
        }
    }

    /// The repeat count of the argument: its value, or 0 when negative.
    pub fn count(self) -> (n: u32)
        ensures
            n == (if self.value < 0 { 0 } else { self.value as u32 }),
    {
        if self.value < 0 { 0 } else { self.value as u32 }
    }
}

/// A key as the Emacs keymap sees it: the key and whether `Ctrl`, `Meta` and (for keys other
/// than characters) `Shift` were held.
#[derive(Clone, Copy, PartialEq, Eq, Debug, Structural)]
pub struct EmacsKey {
    pub code: KeyCode,
    pub ctrl: bool,
    pub alt: bool,
    pub shift: bool,
}

impl EmacsKey {
    /// The Emacs view of a key press; `Shift` counts only for keys that are not characters (a
    /// character already carries it).
    pub fn of(key: KeyEvent) -> (k: EmacsKey)
        ensures
            k.code == key.code,
            k.ctrl == has_ctrl(key.modifiers),
            k.alt == (key.modifiers.bits & 4 == 4),
            k.shift == (key.modifiers.bits & 1 == 1 && !(key.code is Char)),
    {
        let is_char = match key.code {
            KeyCode::Char(_) => true,
            _ => false,
        };
        EmacsKey {
            code: key.code,
            ctrl: key.modifiers.contains(KeyModifiers::control()),
            alt: key.modifiers.contains(KeyModifiers::alt()),
            shift: key.modifiers.contains(KeyModifiers::shift()) && !is_char,
        }
    }

    /// A key with the given modifiers.
    pub fn with_mods(code: KeyCode, ctrl: bool, alt: bool, shift: bool) -> (k: EmacsKey)
        ensures
            k == (EmacsKey { code, ctrl, alt, shift }),
    {
        EmacsKey { code, ctrl, alt, shift }
    }
}

/// A command an `M-x` name runs.
#[derive(Clone, Copy, PartialEq, Eq, Debug, Structural)]
pub enum EmacsCommand {
    /// `forward-char`.
    MoveRight,
    /// `backward-char`.
    MoveLeft,
    /// `next-line`.
    MoveDown,
    /// `previous-line`.
    MoveUp,
    /// `move-beginning-of-line`.
    MoveLineStart,
    /// `back-to-indentation`: to the first non-blank of the line.
    MoveFirstNonBlank,
    /// `forward-paragraph`.
    ParagraphForward,
    /// `backward-paragraph`.
    ParagraphBackward,
    /// `just-one-space` (keeping one) and `delete-horizontal-space`.
    HorizontalSpace { keep_one: bool },
    /// `open-line`.
    OpenLine,
    /// `mark-word`.
    MarkWord,
    /// `kill-whole-line`.
    KillWholeLine,
    /// `upcase-region`, `downcase-region`, `capitalize-region`.
    CaseRegion { case: WordCase },
    /// `delete-indentation`.
    DeleteIndentation,
    /// `move-end-of-line`.
    MoveLineEnd,
    /// `beginning-of-buffer` and `end-of-buffer`.
    BufferEdge { start: bool },
    /// `forward-word`.
    WordForward,
    /// `backward-word`.
    WordBackward,
    /// `delete-char`: one character forward.
    DeleteForward,
    /// `kill-line`.
    KillLine,
    /// `transpose-chars`.
    TransposeChars,
    /// `transpose-words`.
    TransposeWords,
    /// `upcase-word`, `downcase-word`, `capitalize-word`.
    CaseWord { case: WordCase },
    /// `kill-word`: one word.
    KillWord,
    /// `backward-kill-word`: one word.
    BackwardKillWord,
    /// `yank`: the latest kill.
    Yank,
    /// `newline`.
    InsertNewline,
    /// `undo`.
    Undo,
    /// `save-buffer`.
    Save,
    /// `save-buffers-kill-terminal`.
    Quit,
    /// `set-mark-command`.
    SetMark,
    /// `kill-region`.
    KillRegion,
    /// `kill-ring-save`.
    CopyRegion,
    /// `exchange-point-and-mark`.
    ExchangePointMark,
}

/// The command named `name` (surrounding whitespace ignored), if the registry has one.
pub open spec fn emacs_command_of(name: Seq<char>) -> Option<EmacsCommand> {
    let n = trim_of(name);
    if n == "forward-char"@ {
        Some(EmacsCommand::MoveRight)
    } else if n == "backward-char"@ {
        Some(EmacsCommand::MoveLeft)
    } else if n == "next-line"@ {
        Some(EmacsCommand::MoveDown)
    } else if n == "previous-line"@ {
        Some(EmacsCommand::MoveUp)
    } else if n == "move-beginning-of-line"@ {
        Some(EmacsCommand::MoveLineStart)
    } else if n == "back-to-indentation"@ {
        Some(EmacsCommand::MoveFirstNonBlank)
    } else if n == "forward-paragraph"@ {
        Some(EmacsCommand::ParagraphForward)
    } else if n == "backward-paragraph"@ {
        Some(EmacsCommand::ParagraphBackward)
    } else if n == "just-one-space"@ {
        Some(EmacsCommand::HorizontalSpace { keep_one: true })
    } else if n == "delete-horizontal-space"@ {
        Some(EmacsCommand::HorizontalSpace { keep_one: false })
    } else if n == "open-line"@ {
        Some(EmacsCommand::OpenLine)
    } else if n == "mark-word"@ {
        Some(EmacsCommand::MarkWord)
    } else if n == "kill-whole-line"@ {
        Some(EmacsCommand::KillWholeLine)
    } else if n == "upcase-region"@ {
        Some(EmacsCommand::CaseRegion { case: WordCase::Upcase })
    } else if n == "downcase-region"@ {
        Some(EmacsCommand::CaseRegion { case: WordCase::Downcase })
    } else if n == "capitalize-region"@ {
        Some(EmacsCommand::CaseRegion { case: WordCase::Capitalize })
    } else if n == "delete-indentation"@ {
        Some(EmacsCommand::DeleteIndentation)
    } else if n == "move-end-of-line"@ {
        Some(EmacsCommand::MoveLineEnd)
    } else if n == "beginning-of-buffer"@ {
        Some(EmacsCommand::BufferEdge { start: true })
    } else if n == "end-of-buffer"@ {
        Some(EmacsCommand::BufferEdge { start: false })
    } else if n == "forward-word"@ {
        Some(EmacsCommand::WordForward)
    } else if n == "backward-word"@ {
        Some(EmacsCommand::WordBackward)
    } else if n == "delete-char"@ {
        Some(EmacsCommand::DeleteForward)
    } else if n == "kill-line"@ {
        Some(EmacsCommand::KillLine)
    } else if n == "transpose-chars"@ {
        Some(EmacsCommand::TransposeChars)
    } else if n == "transpose-words"@ {
        Some(EmacsCommand::TransposeWords)
    } else if n == "upcase-word"@ {
        Some(EmacsCommand::CaseWord { case: WordCase::Upcase })
    } else if n == "downcase-word"@ {
        Some(EmacsCommand::CaseWord { case: WordCase::Downcase })
    } else if n == "capitalize-word"@ {
        Some(EmacsCommand::CaseWord { case: WordCase::Capitalize })
    } else if n == "kill-word"@ {
        Some(EmacsCommand::KillWord)
    } else if n == "backward-kill-word"@ {
        Some(EmacsCommand::BackwardKillWord)
    } else if n == "yank"@ {
        Some(EmacsCommand::Yank)
    } else if n == "newline"@ {
        Some(EmacsCommand::InsertNewline)
    } else if n == "undo"@ {
        Some(EmacsCommand::Undo)
    } else if n == "save-buffer"@ {
        Some(EmacsCommand::Save)
    } else if n == "save-buffers-kill-terminal"@ {
        Some(EmacsCommand::Quit)
    } else if n == "set-mark-command"@ {
        Some(EmacsCommand::SetMark)
    } else if n == "kill-region"@ {
        Some(EmacsCommand::KillRegion)
    } else if n == "kill-ring-save"@ {
        Some(EmacsCommand::CopyRegion)
    } else if n == "exchange-point-and-mark"@ {
        Some(EmacsCommand::ExchangePointMark)
    } else {
        None
    }
}

/// Whether the characters `t` spell `lit`.
fn spells(t: &[char], lit: &str) -> (r: bool)
    ensures
        r == (t@ == lit@),
{
    let l = chars_of(lit);
    chars_equal(t, l.as_slice())
}

/// The command named `name` (surrounding whitespace ignored), or `None` for a name the registry
/// does not know.
pub fn emacs_command_by_name(name: &str) -> (r: Option<EmacsCommand>)
    ensures
        r == emacs_command_of(name@),
{
    let cs = chars_of(name);
    let t = trim(cs.as_slice());
    let n = t.as_slice();
    if spells(n, "forward-char") {
        Some(EmacsCommand::MoveRight)
    } else if spells(n, "backward-char") {
        Some(EmacsCommand::MoveLeft)
    } else if spells(n, "next-line") {
        Some(EmacsCommand::MoveDown)
    } else if spells(n, "previous-line") {
        Some(EmacsCommand::MoveUp)
    } else if spells(n, "move-beginning-of-line") {
        Some(EmacsCommand::MoveLineStart)
    } else if spells(n, "back-to-indentation") {
        Some(EmacsCommand::MoveFirstNonBlank)
    } else if spells(n, "forward-paragraph") {
        Some(EmacsCommand::ParagraphForward)
    } else if spells(n, "backward-paragraph") {
        Some(EmacsCommand::ParagraphBackward)
    } else if spells(n, "just-one-space") {
        Some(EmacsCommand::HorizontalSpace { keep_one: true })
    } else if spells(n, "delete-horizontal-space") {
        Some(EmacsCommand::HorizontalSpace { keep_one: false })
    } else if spells(n, "open-line") {
        Some(EmacsCommand::OpenLine)
    } else if spells(n, "mark-word") {
        Some(EmacsCommand::MarkWord)
    } else if spells(n, "kill-whole-line") {
        Some(EmacsCommand::KillWholeLine)
    } else if spells(n, "upcase-region") {
        Some(EmacsCommand::CaseRegion { case: WordCase::Upcase })
    } else if spells(n, "downcase-region") {
        Some(EmacsCommand::CaseRegion { case: WordCase::Downcase })
    } else if spells(n, "capitalize-region") {
        Some(EmacsCommand::CaseRegion { case: WordCase::Capitalize })
    } else if spells(n, "delete-indentation") {
        Some(EmacsCommand::DeleteIndentation)
    } else if spells(n, "move-end-of-line") {
        Some(EmacsCommand::MoveLineEnd)
    } else if spells(n, "beginning-of-buffer") {
        Some(EmacsCommand::BufferEdge { start: true })
    } else if spells(n, "end-of-buffer") {
        Some(EmacsCommand::BufferEdge { start: false })
    } else if spells(n, "forward-word") {
        Some(EmacsCommand::WordForward)
    } else if spells(n, "backward-word") {
        Some(EmacsCommand::WordBackward)
    } else if spells(n, "delete-char") {
        Some(EmacsCommand::DeleteForward)
    } else if spells(n, "kill-line") {
        Some(EmacsCommand::KillLine)
    } else if spells(n, "transpose-chars") {
        Some(EmacsCommand::TransposeChars)
    } else if spells(n, "transpose-words") {
        Some(EmacsCommand::TransposeWords)
    } else if spells(n, "upcase-word") {
        Some(EmacsCommand::CaseWord { case: WordCase::Upcase })
    } else if spells(n, "downcase-word") {
        Some(EmacsCommand::CaseWord { case: WordCase::Downcase })
    } else if spells(n, "capitalize-word") {
        Some(EmacsCommand::CaseWord { case: WordCase::Capitalize })
    } else if spells(n, "kill-word") {
        Some(EmacsCommand::KillWord)
    } else if spells(n, "backward-kill-word") {
        Some(EmacsCommand::BackwardKillWord)
    } else if spells(n, "yank") {
        Some(EmacsCommand::Yank)
    } else if spells(n, "newline") {
        Some(EmacsCommand::InsertNewline)
    } else if spells(n, "undo") {
        Some(EmacsCommand::Undo)
    } else if spells(n, "save-buffer") {
        Some(EmacsCommand::Save)
    } else if spells(n, "save-buffers-kill-terminal") {
        Some(EmacsCommand::Quit)
    } else if spells(n, "set-mark-command") {
        Some(EmacsCommand::SetMark)
    } else if spells(n, "kill-region") {
        Some(EmacsCommand::KillRegion)
    } else if spells(n, "kill-ring-save") {
        Some(EmacsCommand::CopyRegion)
    } else if spells(n, "exchange-point-and-mark") {
        Some(EmacsCommand::ExchangePointMark)
    } else {
        None
    }
}

} // verus!
