use std::collections::VecDeque;

use ruse_tui::pty::encode_key;

use ruse_tui::keys::{
    decode, encode, encode_all, enqueue_macro, KeyCode, KeyEvent, KeyModifiers, MACRO_KEY_CAP,
};

fn ch(c: char) -> KeyEvent {
    KeyEvent::new(KeyCode::Char(c), KeyModifiers::none())
}
fn ctrl(c: char) -> KeyEvent {
    KeyEvent::new(KeyCode::Char(c), KeyModifiers::control())
}
fn key(code: KeyCode) -> KeyEvent {
    KeyEvent::new(code, KeyModifiers::none())
}

#[test]
fn round_trips_the_slice1_alphabet() {
    let keys = vec![
        ch('a'),
        ch('Z'),
        ch('가'), // multibyte UTF-8
        ch(' '),
        ctrl('a'),
        ctrl('w'),
        key(KeyCode::Esc),
        key(KeyCode::Enter),
        key(KeyCode::Tab),
        key(KeyCode::Backspace),
    ];
    for k in &keys {
        assert_eq!(decode(&encode(*k).unwrap()), vec![*k], "round-trip {k:?}");
    }
}

#[test]
fn a_whole_macro_buffer_round_trips() {
    // "iZ<Esc>" — enter insert, type Z, escape.
    let macro_keys = vec![ch('i'), ch('Z'), key(KeyCode::Esc)];
    let bytes = encode_all(&macro_keys);
    assert_eq!(bytes, vec![b'i', b'Z', 0x1b]);
    assert_eq!(decode(&bytes), macro_keys);
}

#[test]
fn ctrl_letters_map_to_control_bytes() {
    assert_eq!(encode(ctrl('a')).unwrap(), vec![0x01]);
    assert_eq!(encode(ctrl('z')).unwrap(), vec![0x1a]);
    // Ctrl-I / Ctrl-M are the Tab / Enter bytes, so they decode to Tab / Enter (terminal ambiguity).
    assert_eq!(decode(&[0x09]), vec![key(KeyCode::Tab)]);
    assert_eq!(decode(&[0x0d]), vec![key(KeyCode::Enter)]);
}

#[test]
fn decode_skips_unrecognised_bytes_without_panic() {
    // A stray 0x00 and an incomplete UTF-8 lead byte are skipped; the surrounding keys survive.
    let bytes = vec![b'x', 0x00, 0xff, b'y'];
    assert_eq!(decode(&bytes), vec![ch('x'), ch('y')]);
}

#[test]
fn arrows_and_unencodable_keys_are_dropped() {
    assert_eq!(encode(key(KeyCode::Up)), None);
    // encode_all silently drops them, keeping the rest of the sequence.
    assert_eq!(
        encode_all(&[ch('a'), key(KeyCode::Up), ch('b')]),
        vec![b'a', b'b']
    );
}

#[test]
fn enqueue_macro_pushes_decoded_keys_within_budget() {
    let mut q = VecDeque::new();
    let mut budget = 0;
    // A top-level @ (empty queue, no budget) seeds MACRO_KEY_CAP, then enqueues "ax".
    assert!(enqueue_macro(&mut q, &mut budget, b"ax"));
    assert_eq!(q, VecDeque::from(vec![ch('a'), ch('x')]));
    assert_eq!(
        budget,
        MACRO_KEY_CAP - 2,
        "budget decremented by keys pushed"
    );
}

#[test]
fn enqueue_macro_truncates_at_the_recursion_cap() {
    let mut q = VecDeque::new();
    // Pretend we are deep in an expansion with only 3 keys of budget left.
    let mut budget = 3;
    q.push_back(ch('_')); // non-empty queue ⇒ do NOT reseed the budget
    let full = enqueue_macro(&mut q, &mut budget, b"abcde"); // 5 keys, only 3 allowed
    assert!(!full, "reports truncation");
    assert_eq!(budget, 0, "budget exhausted");
    // The 3 taken keys were appended after the sentinel.
    assert_eq!(q.len(), 1 + 3);
}

#[test]
fn four_byte_characters_round_trip() {
    let k = ch('😀');
    let bytes = encode(k).unwrap();
    assert_eq!(bytes, "😀".as_bytes().to_vec());
    assert_eq!(decode(&bytes), vec![k]);
}

#[test]
fn ctrl_with_a_capital_letter_encodes_like_the_lower_case_one() {
    assert_eq!(encode(ctrl('A')).unwrap(), vec![0x01]);
    assert_eq!(decode(&[0x01]), vec![ctrl('a')]);
}

#[test]
fn ctrl_h_i_j_m_decode_to_their_named_keys() {
    assert_eq!(decode(&encode(ctrl('h')).unwrap()), vec![key(KeyCode::Backspace)]);
    assert_eq!(decode(&encode(ctrl('i')).unwrap()), vec![key(KeyCode::Tab)]);
    assert_eq!(decode(&encode(ctrl('j')).unwrap()), vec![key(KeyCode::Enter)]);
    assert_eq!(decode(&encode(ctrl('m')).unwrap()), vec![key(KeyCode::Enter)]);
}

#[test]
fn a_truncated_multibyte_sequence_is_skipped() {
    // The lead byte of a 3-byte character with only one continuation byte left.
    assert_eq!(decode(&[b'a', 0xe2, 0x82]), vec![ch('a')]);
    // A lone continuation byte.
    assert_eq!(decode(&[0x80, b'b']), vec![ch('b')]);
}

#[test]
fn top_level_replay_with_an_empty_macro_keeps_the_fresh_budget() {
    let mut q = VecDeque::new();
    let mut budget = 0;
    assert!(enqueue_macro(&mut q, &mut budget, b""));
    assert!(q.is_empty());
    assert_eq!(budget, MACRO_KEY_CAP);
}

#[test]
fn pty_encoding_of_keys() {
    assert_eq!(encode_key(ch('a')), Some(vec![b'a']));
    assert_eq!(encode_key(ctrl('c')), Some(vec![0x03]));
    assert_eq!(encode_key(ctrl(' ')), Some(vec![0x00]));
    assert_eq!(encode_key(ctrl('1')), Some(vec![b'1']));
    assert_eq!(encode_key(key(KeyCode::Up)), Some(b"\x1b[A".to_vec()));
    assert_eq!(encode_key(key(KeyCode::Down)), Some(b"\x1b[B".to_vec()));
    assert_eq!(encode_key(key(KeyCode::Right)), Some(b"\x1b[C".to_vec()));
    assert_eq!(encode_key(key(KeyCode::Left)), Some(b"\x1b[D".to_vec()));
    assert_eq!(encode_key(key(KeyCode::Home)), Some(b"\x1b[H".to_vec()));
    assert_eq!(encode_key(key(KeyCode::End)), Some(b"\x1b[F".to_vec()));
    assert_eq!(encode_key(key(KeyCode::Delete)), Some(b"\x1b[3~".to_vec()));
    assert_eq!(encode_key(key(KeyCode::Enter)), Some(vec![b'\r']));
    assert_eq!(encode_key(key(KeyCode::F(1))), None);
    assert_eq!(encode_key(ch('é')), Some("é".as_bytes().to_vec()));
}

#[test]
fn a_self_invoking_macro_stops_at_the_cap() {
    // Register `a` holds `x@a`: replaying it types `x`, then replays itself.
    let mut q = std::collections::VecDeque::new();
    let mut budget = 0u32;
    let mut typed = 0u64;
    let mut replays = 0u64;
    let mut full = enqueue_macro(&mut q, &mut budget, b"x@a");
    replays += 1;
    while let Some(k) = q.pop_front() {
        match k.code {
            KeyCode::Char('x') => typed += 1,
            KeyCode::Char('a') => {
                full = enqueue_macro(&mut q, &mut budget, b"x@a");
                replays += 1;
            }
            _ => {}
        }
    }
    assert!(!full, "the last replay was cut short");
    assert!(typed <= MACRO_KEY_CAP as u64);
    assert!(typed + 2 * (replays - 1) <= MACRO_KEY_CAP as u64 + 3);
    assert_eq!(budget, 0);
}
