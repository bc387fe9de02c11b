//! The bytes a terminal expects on a shell's stdin for a key, for forwarding keys to a
//! pseudo-terminal.
use vstd::prelude::*;
use vstd::utf8::*;
use crate::keys::{ascii_lower, char_bytes, has_ctrl, is_ascii_letter, KeyCode, KeyEvent, KeyModifiers};

verus! {

/// What a terminal sends for a key: `Ctrl` with a letter is its control byte, `Ctrl-Space` is
/// NUL, any other character its UTF-8 encoding; `Enter`, `Tab`, `Backspace`, `Esc` are CR, TAB,
/// DEL, ESC; the arrows, `Home`, `End` and `Delete` are their ANSI escape sequences; other keys
/// have no encoding.
pub open spec fn key_bytes_of(k: KeyEvent) -> Option<Seq<u8>> {
    match k.code {
        KeyCode::Char(c) => if has_ctrl(k.modifiers) && is_ascii_letter(c) {
            Some(seq![((ascii_lower(c) as u32) - ('a' as u32) + 1) as u8])
        } else if has_ctrl(k.modifiers) && c == ' ' {
            Some(seq![0u8])
        } else {
            Some(encode_utf8(seq![c]))
        },
        KeyCode::Enter => Some(seq![13u8]),
        KeyCode::Tab => Some(seq![9u8]),
        KeyCode::Backspace => Some(seq![0x7fu8]),
        KeyCode::Esc => Some(seq![0x1bu8]),
        KeyCode::Up => Some(seq![0x1bu8, 0x5bu8, 0x41u8]),
        KeyCode::Down => Some(seq![0x1bu8, 0x5bu8, 0x42u8]),
        KeyCode::Right => Some(seq![0x1bu8, 0x5bu8, 0x43u8]),
        KeyCode::Left => Some(seq![0x1bu8, 0x5bu8, 0x44u8]),
        KeyCode::Home => Some(seq![0x1bu8, 0x5bu8, 0x48u8]),
        KeyCode::End => Some(seq![0x1bu8, 0x5bu8, 0x46u8]),
        KeyCode::Delete => Some(seq![0x1bu8, 0x5bu8, 0x33u8, 0x7eu8]),
        _ => None,
    }
}

/// Encodes a key for a terminal (see `key_bytes_of`).
pub fn encode_key(key: KeyEvent) -> (r: Option<Vec<u8>>)
    ensures
        r matches Some(v) ==> key_bytes_of(key) == Some(v@),
        r is None ==> key_bytes_of(key) is None,
{
    let ctrl = key.modifiers.contains(KeyModifiers::control());
    match key.code {
        KeyCode::Char(c) => {
            if ctrl && (('a' <= c && c <= 'z') || ('A' <= c && c <= 'Z')) {
                let lc: u32 = if 'A' <= c && c <= 'Z' { (c as u32) + 32 } else { c as u32 };
                let byte = (lc - ('a' as u32) + 1) as u8;
                Some(vec![byte])
            } else if ctrl && c == ' ' {
                Some(vec![0u8])
            } else {
                Some(char_bytes(c))
            }
        },
        KeyCode::Enter => Some(vec![13u8]),
        KeyCode::Tab => Some(vec![9u8]),
        KeyCode::Backspace => Some(vec![0x7fu8]),
        KeyCode::Esc => Some(vec![0x1bu8]),
        KeyCode::Up => Some(vec![0x1bu8, 0x5bu8, 0x41u8]),
        KeyCode::Down => Some(vec![0x1bu8, 0x5bu8, 0x42u8]),
        KeyCode::Right => Some(vec![0x1bu8, 0x5bu8, 0x43u8]),
        KeyCode::Left => Some(vec![0x1bu8, 0x5bu8, 0x44u8]),
        KeyCode::Home => Some(vec![0x1bu8, 0x5bu8, 0x48u8]),
        KeyCode::End => Some(vec![0x1bu8, 0x5bu8, 0x46u8]),
        KeyCode::Delete => Some(vec![0x1bu8, 0x5bu8, 0x33u8, 0x7eu8]),
        _ => None,
    }
}


/// Law: the editing keys reach the shell as the bytes a terminal sends, whatever the modifiers:
/// `Tab` is TAB (0x09), `Enter` is CR (0x0D), `Backspace` is DEL (0x7F) and `Esc` is ESC (0x1B);
/// the arrows are `ESC [ A`..`ESC [ D` (up, down, right, left).
pub proof fn law_editing_keys_reach_the_shell(m: KeyModifiers)
    ensures
        key_bytes_of(KeyEvent { code: KeyCode::Tab, modifiers: m }) == Some(seq![0x09u8]),
        key_bytes_of(KeyEvent { code: KeyCode::Enter, modifiers: m }) == Some(seq![0x0Du8]),
        key_bytes_of(KeyEvent { code: KeyCode::Backspace, modifiers: m }) == Some(seq![0x7Fu8]),
        key_bytes_of(KeyEvent { code: KeyCode::Esc, modifiers: m }) == Some(seq![0x1Bu8]),
        key_bytes_of(KeyEvent { code: KeyCode::Up, modifiers: m }) == Some(seq![0x1Bu8, 0x5Bu8, 0x41u8]),
        key_bytes_of(KeyEvent { code: KeyCode::Down, modifiers: m }) == Some(seq![0x1Bu8, 0x5Bu8, 0x42u8]),
        key_bytes_of(KeyEvent { code: KeyCode::Right, modifiers: m }) == Some(seq![0x1Bu8, 0x5Bu8, 0x43u8]),
        key_bytes_of(KeyEvent { code: KeyCode::Left, modifiers: m }) == Some(seq![0x1Bu8, 0x5Bu8, 0x44u8]),
{
}

/// Law: a character typed without `Ctrl` reaches the shell as its UTF-8 encoding, which decodes
/// back to that one character; with `Ctrl`, a letter of either case is one control byte from 1
/// (`a`) to 26 (`z`), the same for both cases.
pub proof fn law_characters_reach_the_shell(c: char, m: KeyModifiers)
    ensures
        !has_ctrl(m) ==> (key_bytes_of(KeyEvent { code: KeyCode::Char(c), modifiers: m }) matches Some(b)
            && decode_utf8(b) == seq![c]),
        has_ctrl(m) && 'a' <= c <= 'z' ==> key_bytes_of(KeyEvent { code: KeyCode::Char(c), modifiers: m })
            == Some(seq![((c as u32) - 0x60) as u8]),
        has_ctrl(m) && 'A' <= c <= 'Z' ==> key_bytes_of(KeyEvent { code: KeyCode::Char(c), modifiers: m })
            == Some(seq![((c as u32) - 0x40) as u8]),
{
    encode_utf8_decode_utf8(seq![c]);
}

} // verus!
