use ruse_tui::input::op::{Op, WordCase};
use ruse_tui::input::lang::LangArg;
use ruse_tui::input::vim::Ns;
use ruse_tui::input::cmdwin::{CmdWin, VIEW};
use ruse_tui::input::count::CountState;
use ruse_tui::input::digraph::{digraph, table};
use ruse_tui::input::emacs::{EmacsArg, EmacsKey};
use ruse_tui::input::history::{CmdHistory, HistWalk, DEFAULT_CAP};
use ruse_tui::input::literal::{literal_collect, literal_first, LiteralEntry, LiteralStep};
use ruse_tui::keys::{KeyCode, KeyEvent, KeyModifiers};

fn hist() -> Vec<String> {
    ["edit a", "set nu", "write"]
        .iter()
        .map(|s| s.to_string())
        .collect()
}

#[test]
fn open_appends_empty_line_and_selects_it() {
    let cw = CmdWin::open(':', &hist());
    assert_eq!(cw.glyph(), ':');
    assert_eq!(cw.selected_line(), "");
    let rows = cw.rows();
    assert_eq!(rows.len(), 4);
    assert!(rows.last().unwrap().1, "the empty last line is selected");
    assert_eq!(rows[0].0, "edit a");
    assert_eq!(rows[2].0, "write");
}

#[test]
fn up_down_navigate_and_are_bounded() {
    let mut cw = CmdWin::open(':', &hist());
    cw.up();
    assert_eq!(cw.selected_line(), "write");
    cw.up();
    assert_eq!(cw.selected_line(), "set nu");
    cw.up();
    assert_eq!(cw.selected_line(), "edit a");
    cw.up();
    assert_eq!(cw.selected_line(), "edit a");
    cw.down();
    assert_eq!(cw.selected_line(), "set nu");
    for _ in 0..5 {
        cw.down();
    }
    assert_eq!(cw.selected_line(), "", "bounded at the empty last line");
}

#[test]
fn empty_history_is_just_the_blank_line() {
    let cw = CmdWin::open('/', &[]);
    assert_eq!(cw.rows().len(), 1);
    assert_eq!(cw.selected_line(), "");
}

#[test]
fn rows_scroll_to_keep_selection_visible() {
    let entries: Vec<String> = (0..30).map(|i| format!("cmd{i}")).collect();
    let mut cw = CmdWin::open(':', &entries);
    let rows = cw.rows();
    assert_eq!(rows.len(), VIEW);
    assert!(rows.last().unwrap().1, "selection (empty line) is visible");
    for _ in 0..20 {
        cw.up();
    }
    let rows = cw.rows();
    assert!(
        rows.iter().any(|(_, sel)| *sel),
        "selection remains within the scrolled window"
    );
    assert_eq!(cw.selected_line(), "cmd10");
}

#[test]
fn rows_window_is_clamped_at_the_top() {
    let entries: Vec<String> = (0..30).map(|i| format!("cmd{i}")).collect();
    let mut cw = CmdWin::open(':', &entries);
    for _ in 0..40 {
        cw.up();
    }
    let rows = cw.rows();
    assert_eq!(rows.len(), VIEW);
    assert_eq!(rows[0].0, "cmd0");
    assert!(rows[0].1);
}

#[test]
fn known_accented_vowels_resolve() {
    assert_eq!(digraph('a', ':'), Some('ä'));
    assert_eq!(digraph('o', ':'), Some('ö'));
    assert_eq!(digraph('u', ':'), Some('ü'));
    assert_eq!(digraph('e', '\''), Some('é'));
    assert_eq!(digraph('a', '`'), Some('à'));
    assert_eq!(digraph('o', '^'), Some('ô'));
    assert_eq!(digraph('n', '~'), Some('ñ'));
    assert_eq!(digraph('A', ':'), Some('Ä'));
    assert_eq!(digraph('E', '\''), Some('É'));
}

#[test]
fn known_symbols_resolve() {
    assert_eq!(digraph('C', 'o'), Some('©'));
    assert_eq!(digraph('R', 'g'), Some('®'));
    assert_eq!(digraph('D', 'G'), Some('°'));
    assert_eq!(digraph('+', '-'), Some('±'));
    assert_eq!(digraph('<', '<'), Some('«'));
    assert_eq!(digraph('>', '>'), Some('»'));
    assert_eq!(digraph('O', 'K'), Some('✓'));
    assert_eq!(digraph('X', 'X'), Some('✗'));
    assert_eq!(digraph('-', '>'), Some('→'));
    assert_eq!(digraph('E', 'u'), Some('€'));
    assert_eq!(digraph('s', 's'), Some('ß'));
}

#[test]
fn unknown_pairs_return_none() {
    assert_eq!(digraph('z', 'z'), None);
    assert_eq!(digraph('q', 'q'), None);
    assert_eq!(digraph('d', 'g'), None);
    assert_eq!(digraph(':', 'a'), None);
}

#[test]
fn table_has_no_duplicate_codes() {
    let mut seen = std::collections::HashSet::new();
    for (c1, c2, _) in table() {
        assert!(seen.insert((c1, c2)), "duplicate digraph code: {c1}{c2}");
    }
}

fn ring(items: &[&str]) -> CmdHistory {
    let mut h = CmdHistory::new(DEFAULT_CAP);
    for it in items {
        h.push(it);
    }
    h
}

#[test]
fn empty_line_is_not_stored() {
    let mut h = CmdHistory::new(DEFAULT_CAP);
    h.push("");
    assert!(h.entries().is_empty());
}

#[test]
fn dedup_moves_repeat_to_end() {
    let h = ring(&["foo", "bar", "foo"]);
    assert_eq!(h.entries(), &["bar", "foo"]);
}

#[test]
fn cap_evicts_oldest_first() {
    let mut h = CmdHistory::new(2);
    h.push("a");
    h.push("b");
    h.push("c");
    assert_eq!(h.entries(), &["b", "c"]);
}

#[test]
fn zero_cap_still_keeps_the_newest() {
    let mut h = CmdHistory::new(0);
    h.push("a");
    h.push("b");
    assert_eq!(h.entries_ref(), &["b"]);
}

#[test]
fn up_walks_newest_to_oldest_unfiltered() {
    let h = ring(&["set foo", "echo x", "edit a", "echo y", "edit b"]);
    let mut w = HistWalk::default();
    assert_eq!(h.recall_prev(&mut w, "", false).as_deref(), Some("edit b"));
    assert_eq!(h.recall_prev(&mut w, "", false).as_deref(), Some("echo y"));
}

#[test]
fn up_prefix_filters_by_draft() {
    let h = ring(&["set foo", "echo x", "edit a", "echo y", "edit b"]);
    let mut w = HistWalk::default();
    assert_eq!(
        h.recall_prev(&mut w, "edit", true).as_deref(),
        Some("edit b")
    );
    assert_eq!(
        h.recall_prev(&mut w, "edit", true).as_deref(),
        Some("edit a")
    );
    assert_eq!(h.recall_prev(&mut w, "edit", true), None);
}

#[test]
fn ctrl_p_is_unfiltered_even_with_prefix() {
    let h = ring(&["set foo", "echo x", "edit a", "echo y", "edit b"]);
    let mut w = HistWalk::default();
    assert_eq!(
        h.recall_prev(&mut w, "edit", false).as_deref(),
        Some("edit b")
    );
    assert_eq!(
        h.recall_prev(&mut w, "edit", false).as_deref(),
        Some("echo y")
    );
}

#[test]
fn down_restores_the_typed_draft() {
    let h = ring(&["set foo", "echo x", "edit a", "echo y", "edit b"]);
    let mut w = HistWalk::default();
    assert_eq!(
        h.recall_prev(&mut w, "edit", true).as_deref(),
        Some("edit b")
    );
    assert_eq!(h.recall_next(&mut w, "edit", true).as_deref(), Some("edit"));
    assert_eq!(h.recall_next(&mut w, "edit", true), None);
}

#[test]
fn down_walks_back_toward_newest() {
    let h = ring(&["set foo", "echo x", "edit a", "echo y", "edit b"]);
    let mut w = HistWalk::default();
    h.recall_prev(&mut w, "edit", true);
    h.recall_prev(&mut w, "edit", true);
    assert_eq!(
        h.recall_next(&mut w, "edit", true).as_deref(),
        Some("edit b")
    );
}

#[test]
fn recall_next_from_draft_is_noop() {
    let h = ring(&["foo"]);
    let mut w = HistWalk::default();
    assert_eq!(h.recall_next(&mut w, "", true), None);
}

#[test]
fn empty_ring_prev_is_noop() {
    let h = ring(&[]);
    let mut w = HistWalk::default();
    assert_eq!(h.recall_prev(&mut w, "e", true), None);
}

#[test]
fn universal_argument_multiplies_until_a_digit() {
    let a = EmacsArg::ctrl_u();
    assert_eq!(a.count(), 4);
    assert_eq!(a.times_four().count(), 16);
    assert_eq!(a.times_four().times_four().count(), 64);
    let d = a.push_digit(3).push_digit(7);
    assert_eq!(d.count(), 37);
    // After a digit, `C-u` no longer multiplies.
    assert_eq!(d.times_four().count(), 37);
    // Saturation instead of overflow.
    let mut big = EmacsArg::ctrl_u().push_digit(9);
    for _ in 0..12 {
        big = big.push_digit(9);
    }
    assert_eq!(big.count(), i32::MAX as u32);
    let mut quad = EmacsArg::ctrl_u();
    for _ in 0..20 {
        quad = quad.times_four();
    }
    assert_eq!(quad.count(), i32::MAX as u32);
}

#[test]
fn emacs_key_tracks_shift_only_off_characters() {
    let shift_ctrl = KeyModifiers { bits: 3 };
    let k = EmacsKey::of(KeyEvent::new(KeyCode::Char('A'), shift_ctrl));
    assert_eq!(k, EmacsKey::with_mods(KeyCode::Char('A'), true, false, false));
    let k = EmacsKey::of(KeyEvent::new(KeyCode::Backspace, shift_ctrl));
    assert_eq!(k, EmacsKey::with_mods(KeyCode::Backspace, true, false, true));
    let k = EmacsKey::of(KeyEvent::new(KeyCode::Char('f'), KeyModifiers::alt()));
    assert_eq!(k, EmacsKey::with_mods(KeyCode::Char('f'), false, true, false));
}

fn feed_literal(keys: &[KeyEvent]) -> LiteralStep {
    let mut step = literal_first(keys[0]);
    for &k in &keys[1..] {
        step = match step {
            LiteralStep::Collect(LiteralEntry::Collecting { base, value, remaining, count }) => {
                literal_collect(base, value, remaining, count, k)
            }
            other => panic!("entry already over: {other:?}"),
        };
    }
    step
}

#[test]
fn ctrl_v_codes_resolve_to_characters() {
    let ch = |c: char| KeyEvent::new(KeyCode::Char(c), KeyModifiers::none());
    assert_eq!(feed_literal(&[ch('0'), ch('6'), ch('5')]), LiteralStep::Insert('A'));
    assert_eq!(feed_literal(&[ch('2'), ch('0'), ch('0')]), LiteralStep::Insert('È'));
    // Decimal codes clamp to 255.
    assert_eq!(feed_literal(&[ch('9'), ch('9'), ch('9')]), LiteralStep::Insert('\u{ff}'));
    assert_eq!(feed_literal(&[ch('o'), ch('1'), ch('0'), ch('1')]), LiteralStep::Insert('A'));
    assert_eq!(feed_literal(&[ch('x'), ch('4'), ch('1')]), LiteralStep::Insert('A'));
    assert_eq!(
        feed_literal(&[ch('u'), ch('2'), ch('6'), ch('3'), ch('a')]),
        LiteralStep::Insert('☺')
    );
    assert_eq!(
        feed_literal(&[ch('U'), ch('0'), ch('0'), ch('0'), ch('1'), ch('f'), ch('6'), ch('0'), ch('0')]),
        LiteralStep::Insert('😀')
    );
    // A lone surrogate is no character.
    assert_eq!(
        feed_literal(&[ch('u'), ch('d'), ch('8'), ch('0'), ch('0')]),
        LiteralStep::Abort
    );
    // A non-digit ends a code early and is handled afterwards.
    assert_eq!(
        feed_literal(&[ch('x'), ch('4'), ch('z')]),
        LiteralStep::Finish { resolved: Some('\u{4}'), key: ch('z') }
    );
    // With no digit, the terminating key is inserted as it is.
    assert_eq!(feed_literal(&[ch('x'), ch('z')]), LiteralStep::Insert('z'));
}

#[test]
fn ctrl_v_inserts_other_keys_literally() {
    let key = |code: KeyCode| KeyEvent::new(code, KeyModifiers::none());
    assert_eq!(literal_first(key(KeyCode::Tab)), LiteralStep::Insert('\t'));
    assert_eq!(literal_first(key(KeyCode::Enter)), LiteralStep::Insert('\r'));
    assert_eq!(literal_first(key(KeyCode::Esc)), LiteralStep::Insert('\u{1b}'));
    assert_eq!(literal_first(key(KeyCode::Char('q'))), LiteralStep::Insert('q'));
    assert_eq!(
        literal_first(KeyEvent::new(KeyCode::Char('v'), KeyModifiers::control())),
        LiteralStep::Insert('\u{16}')
    );
    assert_eq!(literal_first(key(KeyCode::Up)), LiteralStep::Abort);
}

#[test]
fn each_namespace_names_itself() {
    let all = [
        Ns::Normal,
        Ns::Insert,
        Ns::Visual,
        Ns::Select,
        Ns::OperatorPending,
        Ns::Cmdline,
        Ns::Terminal,
        Ns::Lang,
        Ns::Replace,
    ];
    assert_eq!(Ns::Normal.id(), "vim.normal");
    assert_eq!(Ns::OperatorPending.id(), "vim.operator_pending");
    assert_eq!(Ns::Cmdline.id(), "vim.command_line");
    assert_eq!(Ns::Lang.id(), "vim.lang_arg");
    for (i, a) in all.iter().enumerate() {
        for (j, b) in all.iter().enumerate() {
            assert_eq!(a.id() == b.id(), i == j);
        }
    }
}

#[test]
fn the_line_accepted_last_is_recalled_first() {
    let mut h = CmdHistory::new(3);
    for line in ["one", "two", "three", "four", "two"] {
        h.push(line);
        let mut w = HistWalk::new();
        assert_eq!(h.recall_prev(&mut w, "", false).as_deref(), Some(line));
        let mut w = HistWalk::new();
        assert_eq!(h.recall_prev(&mut w, &line[..1], true).as_deref(), Some(line));
    }
    assert_eq!(h.entries().to_vec(), vec!["three", "four", "two"]);
}

#[test]
fn down_right_after_up_comes_back_to_the_draft() {
    let mut h = CmdHistory::new(DEFAULT_CAP);
    for line in ["edit a", "set nu", "edit b", "write"] {
        h.push(line);
    }
    let mut w = HistWalk::new();
    assert_eq!(h.recall_prev(&mut w, "ed", true).as_deref(), Some("edit b"));
    assert_eq!(h.recall_next(&mut w, "edit b", true).as_deref(), Some("ed"));
    let mut w = HistWalk::new();
    assert_eq!(h.recall_prev(&mut w, "", false).as_deref(), Some("write"));
    assert_eq!(h.recall_next(&mut w, "write", false).as_deref(), Some(""));
}

fn key(c: char, bits: u8) -> KeyEvent {
    KeyEvent::new(KeyCode::Char(c), KeyModifiers { bits })
}

#[test]
fn lang_arg_rewrites_only_bare_text_keys_when_on() {
    let mut l = LangArg::new();
    l.set_mapping('a', 'b');
    l.set_mapping('b', 'a');
    // Off by default.
    assert_eq!(l.translate(key('a', 0), true), key('a', 0));
    l.toggle();
    // One substitution, even for a cyclic map.
    assert_eq!(l.translate(key('a', 0), true), key('b', 0));
    assert_eq!(l.translate(key('b', 0), true), key('a', 0));
    // Shift-only keeps its modifier; CTRL is a command and is never mapped.
    assert_eq!(l.translate(key('a', 1), true), key('b', 1));
    assert_eq!(l.translate(key('a', 2), true), key('a', 2));
    // Not in a context that takes text, or not a character key, or not mapped: unchanged.
    assert_eq!(l.translate(key('a', 0), false), key('a', 0));
    let esc = KeyEvent::new(KeyCode::Esc, KeyModifiers { bits: 0 });
    assert_eq!(l.translate(esc, true), esc);
    assert_eq!(l.translate(key('z', 0), true), key('z', 0));
    l.clear_mapping('a');
    assert_eq!(l.translate(key('a', 0), true), key('a', 0));
    l.toggle();
    assert_eq!(l.translate(key('b', 0), true), key('b', 0));
}

#[test]
fn case_and_shift_operators() {
    assert_eq!(Op::CaseLower.case(), Some(WordCase::Downcase));
    assert_eq!(Op::CaseUpper.case(), Some(WordCase::Upcase));
    assert_eq!(Op::CaseToggle.case(), Some(WordCase::Toggle));
    assert_eq!(Op::Rot13.case(), Some(WordCase::Rot13));
    assert_eq!(Op::Delete.case(), None);
    assert_eq!(Op::ShiftLeft.shift(), Some(true));
    assert_eq!(Op::ShiftRight.shift(), Some(false));
    assert_eq!(Op::Yank.shift(), None);
    assert_eq!(Op::Format.shift(), None);
}

#[test]
fn counts_multiply_across_an_armed_operator() {
    fn state(digits_before: &[u32], op: bool, digits_after: &[u32]) -> (u32, bool) {
        let mut c = CountState::new();
        for &d in digits_before {
            assert!(c.push_digit(d));
        }
        if op {
            c.arm();
        }
        for &d in digits_after {
            assert!(c.push_digit(d));
        }
        (c.screen_count(), c.has_op())
    }
    assert_eq!(state(&[], false, &[]), (0, false));
    assert_eq!(state(&[2], false, &[]), (2, false));
    assert_eq!(state(&[], true, &[]), (1, true));
    assert_eq!(state(&[], true, &[2]), (2, true));
    assert_eq!(state(&[3], true, &[]), (3, true));
    assert_eq!(state(&[3], true, &[2]), (6, true));
}

#[test]
fn a_leading_zero_is_no_count_digit() {
    let mut c = CountState::new();
    assert!(!c.push_digit(0));
    assert!(c.is_clean());
    assert!(c.push_digit(1));
    assert!(c.push_digit(0));
    assert_eq!(c.mcount(), 10);
    assert_eq!(c.motion_total(), 10);
}

#[test]
fn take_count_clears_the_pending_state() {
    let mut c = CountState::new();
    assert_eq!(c.mcount(), 1);
    assert_eq!(c.motion_total(), 1);
    c.push_digit(4);
    c.arm();
    c.push_digit(5);
    assert_eq!(c.motion_total(), 20);
    assert_eq!(c.take_count(), 5);
    assert!(c.is_clean());
    assert!(!c.has_op());
    assert_eq!(c.screen_count(), 0);
}

#[test]
fn a_huge_count_saturates() {
    let mut c = CountState::new();
    for _ in 0..9 {
        c.push_digit(9);
    }
    assert_eq!(c.mcount(), 999_999_999);
    c.push_digit(0);
    assert_eq!(c.take_count(), u32::MAX);
}
