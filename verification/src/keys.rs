//! The macro key codec: key events to the bytes a terminal delivers and back. A recorded macro
//! is stored as those bytes; `decode` inverts `encode` on the keys the codec covers (printable
//! characters, `Esc`, `Enter`, `Tab`, `Backspace` and `Ctrl`-letters) and skips what it does not
//! recognise.
use std::collections::VecDeque;
use vstd::prelude::*;
use vstd::utf8::*;
use crate::persist::bytes_to_vec;
use crate::text::{char_utf8_len, chars_of, push_char, utf8_len, utf8_str};

verus! {

/// The modifier keys held with a key, as the bit set terminals report
/// (shift 1, control 2, alt 4, super 8, hyper 16, meta 32).
#[derive(Clone, Copy, PartialEq, Eq, Debug, Hash, Structural)]
pub struct KeyModifiers {
    pub bits: u8,
}

impl KeyModifiers {
    /// No modifier.
    pub fn none() -> (m: KeyModifiers)
        ensures
            m.bits == 0,
    {
        KeyModifiers { bits: 0 }
    }

    /// `Shift`.
    pub fn shift() -> (m: KeyModifiers)
        ensures
            m.bits == 1,
    {
        KeyModifiers { bits: 1 }
    }

    /// `Ctrl`.
    pub fn control() -> (m: KeyModifiers)
        ensures
            m.bits == 2,
    {
        KeyModifiers { bits: 2 }
    }

    /// `Alt`.
    pub fn alt() -> (m: KeyModifiers)
        ensures
            m.bits == 4,
    {
        KeyModifiers { bits: 4 }
    }

    /// Whether every modifier of `other` is held in `self`.
    pub fn contains(self, other: KeyModifiers) -> (r: bool)
        ensures
            r == (self.bits & other.bits == other.bits),
    {
        self.bits & other.bits == other.bits
    }
}

/// Whether `Ctrl` is held.
pub open spec fn has_ctrl(m: KeyModifiers) -> bool {
    m.bits & 2 == 2
}

/// A key.
#[derive(Clone, Copy, PartialEq, Eq, Debug, Hash, Structural)]
pub enum KeyCode {
    Backspace,
    Enter,
    Left,
    Right,
    Up,
    Down,
    Home,
    End,
    PageUp,
    PageDown,
    Tab,
    BackTab,
    Delete,
    Insert,
    F(u8),
    Char(char),
    Null,
    Esc,
    CapsLock,
    ScrollLock,
    NumLock,
    PrintScreen,
    Pause,
    Menu,
    KeypadBegin,
    /// A media or lone-modifier key.
    Other,
}

/// A key press: the key and the modifiers held with it.
#[derive(Clone, Copy, PartialEq, Eq, Debug, Hash, Structural)]
pub struct KeyEvent {
    pub code: KeyCode,
    pub modifiers: KeyModifiers,
}

impl KeyEvent {
    /// A key press of `code` with `modifiers`.
    pub fn new(code: KeyCode, modifiers: KeyModifiers) -> (k: KeyEvent)
        ensures
            k == (KeyEvent { code, modifiers }),
    {
        KeyEvent { code, modifiers }
    }
}

/// The most keys that one top-level macro replay may expand to, nested replays included.
pub const MACRO_KEY_CAP: u32 = 100_000;

/// `c` lowered when it is an ASCII capital.
pub open spec fn ascii_lower(c: char) -> char {
    if 'A' <= c && c <= 'Z' { ((c as u32) + 32) as char } else { c }
}

/// An ASCII letter.
pub open spec fn is_ascii_letter(c: char) -> bool {
    ('a' <= c && c <= 'z') || ('A' <= c && c <= 'Z')
}

/// The bytes of a key: `Ctrl` with a letter is its control byte (`Ctrl-a` is 1, `Ctrl-z` is 26,
/// either case); any other character is its UTF-8 encoding whatever the modifiers; `Enter`,
/// `Tab`, `Backspace`, `Esc` are CR, TAB, DEL, ESC; every other key has no encoding.
pub open spec fn encode_of(k: KeyEvent) -> Option<Seq<u8>> {
    match k.code {
        KeyCode::Char(c) => if has_ctrl(k.modifiers) && is_ascii_letter(c) {
            Some(seq![((ascii_lower(c) as u32) - ('a' as u32) + 1) as u8])
        } else {
            Some(encode_utf8(seq![c]))
        },
        KeyCode::Enter => Some(seq![13u8]),
        KeyCode::Tab => Some(seq![9u8]),
        KeyCode::Backspace => Some(seq![0x7fu8]),
        KeyCode::Esc => Some(seq![0x1bu8]),
        _ => None,
    }
}

/// The UTF-8 encoding of `c`.
pub(crate) fn char_bytes(c: char) -> (v: Vec<u8>)
    ensures
        v@ == encode_utf8(seq![c]),
{
    let mut s = String::new();
    push_char(&mut s, c);
    assert(s@ =~= seq![c]);
    let b = s.as_str().as_bytes();
    bytes_to_vec(b)
}

/// Encodes one key (see `encode_of`).
pub fn encode(key: KeyEvent) -> (r: Option<Vec<u8>>)
    ensures
        r matches Some(v) ==> encode_of(key) == Some(v@),
        r is None ==> encode_of(key) is None,
{
    let ctrl = key.modifiers.contains(KeyModifiers::control());
    match key.code {
        KeyCode::Char(c) => {
            if ctrl && (('a' <= c && c <= 'z') || ('A' <= c && c <= 'Z')) {
                let lc: u32 = if 'A' <= c && c <= 'Z' { (c as u32) + 32 } else { c as u32 };
                let byte = (lc - ('a' as u32) + 1) as u8;
                Some(vec![byte])
            } else {
                Some(char_bytes(c))
            }
        },
        KeyCode::Enter => Some(vec![13u8]),
        KeyCode::Tab => Some(vec![9u8]),
        KeyCode::Backspace => Some(vec![0x7fu8]),
        KeyCode::Esc => Some(vec![0x1bu8]),
        _ => None,
    }
}

/// The bytes of a key sequence: the encodings of its keys in order, those without one skipped.
pub open spec fn encode_all_of(keys: Seq<KeyEvent>) -> Seq<u8>
    decreases keys.len(),
{
    if keys.len() == 0 {
        seq![]
    } else {
        encode_all_of(keys.drop_last()) + match encode_of(keys.last()) {
            Some(b) => b,
            None => seq![],
        }
    }
}

/// Encodes a key sequence (see `encode_all_of`).
pub fn encode_all(keys: &[KeyEvent]) -> (out: Vec<u8>)
    ensures
        out@ == encode_all_of(keys@),
{
    let mut out: Vec<u8> = Vec::new();
    let mut i: usize = 0;
    while i < keys.len()
        invariant
            i <= keys@.len(),
            out@ == encode_all_of(keys@.take(i as int)),
        decreases keys.len() - i,
    {
        assert(keys@.take(i + 1).drop_last() =~= keys@.take(i as int));
        match encode(keys[i]) {
            Some(b) => {
                let mut b = b;
                out.append(&mut b);
            },
            None => {},
        }
        i += 1;
    }
    assert(keys@.take(keys@.len() as int) =~= keys@);
    out
}

/// The width of a UTF-8 sequence from its lead byte (1 for ASCII and for bytes that cannot lead).
pub open spec fn lead_width(b: u8) -> int {
    if b <= 0x7f {
        1
    } else if 0xc0 <= b && b <= 0xdf {
        2
    } else if 0xe0 <= b && b <= 0xef {
        3
    } else if 0xf0 <= b && b <= 0xf7 {
        4
    } else {
        1
    }
}

/// The width of a UTF-8 sequence from its lead byte (see `lead_width`).
pub fn utf8_width(lead: u8) -> (w: usize)
    ensures
        w == lead_width(lead),
{
    if lead <= 0x7f {
        1
    } else if 0xc0 <= lead && lead <= 0xdf {
        2
    } else if 0xe0 <= lead && lead <= 0xef {
        3
    } else if 0xf0 <= lead && lead <= 0xf7 {
        4
    } else {
        1
    }
}

/// A key with no modifiers.
pub open spec fn plain(code: KeyCode) -> KeyEvent {
    KeyEvent { code, modifiers: KeyModifiers { bits: 0 } }
}

/// `Ctrl` with a character.
pub open spec fn ctrl_key(c: char) -> KeyEvent {
    KeyEvent { code: KeyCode::Char(c), modifiers: KeyModifiers { bits: 2 } }
}

/// The lead byte's chunk at `i`: as many bytes as the lead announces, cut at the end.
pub open spec fn chunk_at(b: Seq<u8>, i: int) -> Seq<u8> {
    let e = if i + lead_width(b[i]) <= b.len() { i + lead_width(b[i]) } else { b.len() as int };
    b.subrange(i, e)
}

/// The keys that the bytes of `b` from `i` on spell: ESC, CR or LF, TAB, DEL or BS are `Esc`,
/// `Enter`, `Tab`, `Backspace`; the other bytes 1 to 26 are `Ctrl` with a lower-case letter;
/// the remaining bytes below 32 are skipped; from any other byte, a valid UTF-8 sequence of the
/// width its lead announces is that character, and an invalid one skips the byte.
pub open spec fn decode_from(b: Seq<u8>, i: int) -> Seq<KeyEvent>
    decreases b.len() + 4 - i,
{
    if i < 0 || i >= b.len() {
        seq![]
    } else {
        let x = b[i];
        if x == 0x1b {
            seq![plain(KeyCode::Esc)] + decode_from(b, i + 1)
        } else if x == 13 || x == 10 {
            seq![plain(KeyCode::Enter)] + decode_from(b, i + 1)
        } else if x == 9 {
            seq![plain(KeyCode::Tab)] + decode_from(b, i + 1)
        } else if x == 0x7f || x == 8 {
            seq![plain(KeyCode::Backspace)] + decode_from(b, i + 1)
        } else if 1 <= x && x <= 26 {
            seq![ctrl_key((x - 1 + 97) as char)] + decode_from(b, i + 1)
        } else if x <= 0x1f {
            decode_from(b, i + 1)
        } else {
            let chunk = chunk_at(b, i);
            if valid_utf8(chunk) && decode_utf8(chunk).len() > 0 {
                let c = decode_utf8(chunk)[0];
                seq![plain(KeyCode::Char(c))] + decode_from(b, i + utf8_len(c))
            } else {
                decode_from(b, i + 1)
            }
        }
    }
}

/// The keys that `b` spells (see `decode_from`).
pub open spec fn decode_of(b: Seq<u8>) -> Seq<KeyEvent> {
    decode_from(b, 0)
}

/// Decodes macro bytes into key events (see `decode_from`); never fails.
pub fn decode(bytes: &[u8]) -> (out: Vec<KeyEvent>)
    ensures
        out@ == decode_of(bytes@),
{
    let mut out: Vec<KeyEvent> = Vec::new();
    let mut i: usize = 0;
    while i < bytes.len()
        invariant
            i <= bytes@.len(),
            out@ + decode_from(bytes@, i as int) == decode_of(bytes@),
        decreases bytes.len() - i,
    {
        let b = bytes[i];
        let ghost gi = i as int;
        if b == 0x1b {
            out.push(KeyEvent::new(KeyCode::Esc, KeyModifiers::none()));
        } else if b == 13 || b == 10 {
            out.push(KeyEvent::new(KeyCode::Enter, KeyModifiers::none()));
        } else if b == 9 {
            out.push(KeyEvent::new(KeyCode::Tab, KeyModifiers::none()));
        } else if b == 0x7f || b == 8 {
            out.push(KeyEvent::new(KeyCode::Backspace, KeyModifiers::none()));
        } else if 1 <= b && b <= 26 {
            let v: u8 = b - 1 + 97;
            let c = v as char;
            out.push(KeyEvent::new(KeyCode::Char(c), KeyModifiers::control()));
        } else if b <= 0x1f {
        } else {
            let w = utf8_width(b);
            let e = if w <= bytes.len() - i { i + w } else { bytes.len() };
            let chunk = &bytes[i..e];
            assert(chunk@ == chunk_at(bytes@, gi));
            match utf8_str(chunk) {
                Some(s) => {
                    let cs = chars_of(s);
                    proof {
                        encode_utf8_decode_utf8(s@);
                    }
                    if cs.len() > 0 {
                        let c = cs[0];
                        out.push(KeyEvent::new(KeyCode::Char(c), KeyModifiers::none()));
                        let n = char_utf8_len(c);
                        assert(out@ + decode_from(bytes@, gi + n) == decode_of(bytes@));
                        if n <= bytes.len() - i {
                            i += n;
                        } else {
                            i = bytes.len();
                            assert(decode_from(bytes@, gi + n) == Seq::<KeyEvent>::empty());
                            assert(decode_from(bytes@, i as int) == Seq::<KeyEvent>::empty());
                        }
                        continue;
                    }
                },
                None => {},
            }
        }
        assert(out@ + decode_from(bytes@, gi + 1) == decode_of(bytes@));
        i += 1;
    }
    assert(out@ =~= decode_of(bytes@));
    out
}

/// The budget a macro replay draws from: a top-level replay (nothing queued, nothing left)
/// starts afresh with `MACRO_KEY_CAP`; a nested one shares what is left.
pub open spec fn replay_budget(queued: nat, budget: u32) -> u32 {
    if queued == 0 && budget == 0 { MACRO_KEY_CAP } else { budget }
}

/// How many of `n` decoded keys a budget of `b` lets through.
pub open spec fn replay_take(n: nat, b: u32) -> nat {
    if n <= b { n } else { b as nat }
}

/// Queues the keys that `bytes` decode to, within the replay budget (see `replay_budget`): at
/// most the budget's worth are queued and charged to it; returns whether all of them fitted.
pub fn enqueue_macro(queue: &mut VecDeque<KeyEvent>, budget: &mut u32, bytes: &[u8]) -> (full: bool)
    ensures
        final(queue)@ == old(queue)@ + decode_of(bytes@).take(
            replay_take(decode_of(bytes@).len(), replay_budget(old(queue)@.len(), *old(budget))) as int,
        ),
        *final(budget) == replay_budget(old(queue)@.len(), *old(budget)) - replay_take(
            decode_of(bytes@).len(),
            replay_budget(old(queue)@.len(), *old(budget)),
        ),
        full == (decode_of(bytes@).len() <= replay_budget(old(queue)@.len(), *old(budget))),
{
    let keys = decode(bytes);
    if queue.len() == 0 && *budget == 0 {
        *budget = MACRO_KEY_CAP;
    }
    let ghost b0 = *budget;
    let ghost q0 = queue@;
    let take: usize = if keys.len() <= *budget as usize { keys.len() } else { *budget as usize };
    let full = take == keys.len();
    let mut k: usize = 0;
    while k < take
        invariant
            k <= take <= keys@.len(),
            queue@ == q0 + keys@.take(k as int),
        decreases take - k,
    {
        queue.push_back(keys[k]);
        assert(keys@.take(k + 1) =~= keys@.take(k as int).push(keys@[k as int]));
        k += 1;
    }
    *budget = *budget - take as u32;
    full
}

/// The keys the codec round-trips: a printable character (not a C0 control, not DEL) with no
/// modifier; `Ctrl` with a lower-case letter other than `h`, `i`, `j`, `m` (whose control bytes
/// are those of `Backspace`, `Tab` and `Enter`); `Esc`, `Enter`, `Tab`, `Backspace` with no
/// modifier.
pub open spec fn in_alphabet(k: KeyEvent) -> bool {
    match k.code {
        KeyCode::Char(c) => {
            ||| (k.modifiers.bits == 0 && (c as u32) >= 0x20 && (c as u32) != 0x7f)
            ||| (k.modifiers.bits == 2 && 'a' <= c && c <= 'z' && c != 'h' && c != 'i' && c != 'j'
                && c != 'm')
        },
        KeyCode::Esc | KeyCode::Enter | KeyCode::Tab | KeyCode::Backspace => k.modifiers.bits == 0,
        _ => false,
    }
}

/// Decoding only looks forward: what precedes the position does not matter.
proof fn lemma_decode_shift(p: Seq<u8>, r: Seq<u8>, j: int)
    requires
        0 <= j,
    ensures
        decode_from(p + r, p.len() + j) == decode_from(r, j),
    decreases r.len() + 4 - j,
{
    let b = p + r;
    let i = p.len() + j;
    if j < r.len() {
        assert(b[i] == r[j]);
        let x = r[j];
        if x == 0x1b || x == 13 || x == 10 || x == 9 || x == 0x7f || x == 8 || (1 <= x && x <= 26) || x
            <= 0x1f {
            lemma_decode_shift(p, r, j + 1);
            assert(p.len() + (j + 1) == i + 1);
        } else {
            assert(chunk_at(b, i) =~= chunk_at(r, j));
            let chunk = chunk_at(r, j);
            if valid_utf8(chunk) && decode_utf8(chunk).len() > 0 {
                let c = decode_utf8(chunk)[0];
                lemma_utf8_len_bounds(c);
                lemma_decode_shift(p, r, j + utf8_len(c));
                assert(p.len() + (j + utf8_len(c)) == i + utf8_len(c));
            } else {
                lemma_decode_shift(p, r, j + 1);
                assert(p.len() + (j + 1) == i + 1);
            }
        }
    }
}

/// A character's UTF-8 encoding is one to four bytes.
proof fn lemma_utf8_len_bounds(c: char)
    ensures
        1 <= utf8_len(c) <= 4,
{
    char_is_scalar(c);
}

/// The encoding of a printable character leads with a byte that announces its own width and
/// is neither a C0 control nor DEL.
proof fn lemma_char_lead(c: char)
    requires
        (c as u32) >= 0x20,
        (c as u32) != 0x7f,
    ensures
        encode_utf8(seq![c]) == encode_scalar(c as u32),
        lead_width(encode_scalar(c as u32)[0]) == encode_scalar(c as u32).len(),
        encode_scalar(c as u32)[0] > 0x1f,
        encode_scalar(c as u32)[0] != 0x7f,
{
    char_is_scalar(c);
    let v = c as u32;
    assert(encode_utf8(seq![c]) =~= encode_scalar(v) + encode_utf8(seq![c].drop_first()));
    assert(seq![c].drop_first() =~= Seq::<char>::empty());
    assert(encode_utf8(Seq::<char>::empty()) =~= Seq::<u8>::empty());
    if has_width_1_encoding(v) {
        assert((v & 0x7f) as u8 == v) by (bit_vector)
            requires v <= 0x7f;
    } else if has_width_2_encoding(v) {
        assert(0xc0 <= (0xC0 | ((v >> 6) & 0x1F) as u8) && (0xC0 | ((v >> 6) & 0x1F) as u8) <= 0xdf)
            by (bit_vector);
    } else if has_width_3_encoding(v) {
        assert(0xe0 <= (0xE0 | ((v >> 12) & 0x0F) as u8) && (0xE0 | ((v >> 12) & 0x0F) as u8) <= 0xef)
            by (bit_vector);
    } else {
        assert(0xf0 <= (0xF0 | ((v >> 18) & 0x7) as u8) && (0xF0 | ((v >> 18) & 0x7) as u8) <= 0xf7)
            by (bit_vector);
    }
}

/// Decoding a key's encoding followed by anything gives the key, then what follows decodes.
proof fn lemma_decode_key_then(k: KeyEvent, r: Seq<u8>)
    requires
        in_alphabet(k),
    ensures
        encode_of(k) is Some,
        decode_from(encode_of(k)->0 + r, 0) == seq![k] + decode_from(r, 0),
{
    let e = encode_of(k)->0;
    let b = e + r;
    lemma_decode_shift(e, r, 0);
    assert(e.len() + 0 == e.len());
    match k.code {
        KeyCode::Char(c) => {
            if k.modifiers.bits == 2 {
                assert(2u8 & 2u8 == 2u8) by (bit_vector);
                let x = ((c as u32) - ('a' as u32) + 1) as u8;
                assert(e == seq![x]);
                assert(b[0] == x);
                assert(((x - 1 + 97) as char) == c);
                assert(k == ctrl_key(c));
            } else {
                assert(0u8 & 2u8 == 0u8) by (bit_vector);
                lemma_char_lead(c);
                encode_utf8_valid_utf8(seq![c]);
                encode_utf8_decode_utf8(seq![c]);
                assert(chunk_at(b, 0) =~= e);
                assert(k == plain(KeyCode::Char(c)));
            }
        },
        _ => {
            assert(b[0] == e[0]);
            assert(k == plain(k.code));
        },
    }
}

/// Law: the codec round-trips each key of its alphabet.
pub proof fn law_decode_encode_key(k: KeyEvent)
    requires
        in_alphabet(k),
    ensures
        encode_of(k) is Some,
        decode_of(encode_of(k)->0) == seq![k],
{
    lemma_decode_key_then(k, seq![]);
    assert(encode_of(k)->0 + Seq::<u8>::empty() =~= encode_of(k)->0);
}

/// Law: a whole recorded macro made of alphabet keys decodes back to the same keys.
pub proof fn law_decode_encode_all(keys: Seq<KeyEvent>)
    requires
        forall|i: int| 0 <= i < keys.len() ==> #[trigger] in_alphabet(keys[i]),
    ensures
        decode_of(encode_all_of(keys)) == keys,
    decreases keys.len(),
{
    if keys.len() > 0 {
        let k = keys[0];
        let rest = keys.drop_first();
        law_decode_encode_all(rest);
        lemma_encode_all_first(keys);
        lemma_decode_key_then(k, encode_all_of(rest));
        assert(seq![k] + rest =~= keys);
    }
}

/// The encoding of a sequence starts with that of its first key.
proof fn lemma_encode_all_first(keys: Seq<KeyEvent>)
    requires
        keys.len() > 0,
    ensures
        encode_all_of(keys) == match encode_of(keys[0]) {
            Some(b) => b,
            None => seq![],
        } + encode_all_of(keys.drop_first()),
    decreases keys.len(),
{
    if keys.len() == 1 {
        assert(keys.drop_last() =~= Seq::<KeyEvent>::empty());
        assert(keys.drop_first() =~= Seq::<KeyEvent>::empty());
        assert(keys.last() == keys[0]);
    } else {
        let init = keys.drop_last();
        lemma_encode_all_first(init);
        assert(init.drop_first() =~= keys.drop_first().drop_last());
        assert(init[0] == keys[0]);
        assert(keys.drop_first().last() == keys.last());
    }
}

/// The keys queued by successive replays that draw on one budget `budget` without a fresh start
/// (macros of `ns[0]`, `ns[1]`, ... decoded keys, each nested in the replay of the ones before).
pub open spec fn chain_queued(ns: Seq<nat>, budget: u32) -> nat
    decreases ns.len(),
{
    if ns.len() == 0 {
        0
    } else {
        let t = replay_take(ns[0], budget);
        t + chain_queued(ns.drop_first(), (budget - t) as u32)
    }
}

/// Law: one top-level replay, with all the replays nested in it, queues at most
/// `MACRO_KEY_CAP` keys, so a self-invoking macro stops instead of running forever.
pub proof fn law_replay_is_bounded(ns: Seq<nat>)
    ensures
        chain_queued(ns, MACRO_KEY_CAP) <= MACRO_KEY_CAP,
{
    lemma_chain_queued(ns, MACRO_KEY_CAP);
}

proof fn lemma_chain_queued(ns: Seq<nat>, budget: u32)
    ensures
        chain_queued(ns, budget) <= budget,
    decreases ns.len(),
{
    if ns.len() > 0 {
        let t = replay_take(ns[0], budget);
        lemma_chain_queued(ns.drop_first(), (budget - t) as u32);
    }
}

} // verus!
