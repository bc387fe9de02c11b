use ruse_tui::input::cmdline::{CommandLine, ExprTarget, LineFeed};
use ruse_tui::input::emacs::{emacs_command_by_name, EmacsCommand};
use ruse_tui::input::op::WordCase;
use ruse_tui::input::history::DEFAULT_CAP;
use ruse_tui::keys::{KeyCode, KeyEvent, KeyModifiers};

fn k(c: char) -> KeyEvent {
    KeyEvent::new(KeyCode::Char(c), KeyModifiers::none())
}

fn ctrl(c: char) -> KeyEvent {
    KeyEvent::new(KeyCode::Char(c), KeyModifiers::control())
}

fn special(code: KeyCode) -> KeyEvent {
    KeyEvent::new(code, KeyModifiers::none())
}

fn enter() -> KeyEvent {
    special(KeyCode::Enter)
}

fn up() -> KeyEvent {
    special(KeyCode::Up)
}

fn down() -> KeyEvent {
    special(KeyCode::Down)
}

fn line(e: &CommandLine) -> Option<String> {
    e.cmdline().map(|(_, t, _)| t.to_string())
}

/// Type `text` on the open line and accept it.
fn accept_line(e: &mut CommandLine, text: &str) -> LineFeed {
    for c in text.chars() {
        e.feed_cmdline(k(c));
    }
    e.feed_cmdline(enter())
}

#[test]
fn colon_opens_the_namespace_the_engine_owns_the_line_and_cr_executes() {
    let mut e = CommandLine::new(DEFAULT_CAP);
    e.open_cmdline(':', false);
    assert_eq!(e.cmdline(), Some((':', "", 0)));
    assert_eq!(e.feed_cmdline(k('w')), LineFeed::Pending);
    assert_eq!(e.feed_cmdline(k('q')), LineFeed::Pending);
    assert_eq!(e.cmdline(), Some((':', "wq", 2)), "the namespace owns the line buffer + cursor");
    assert_eq!(e.feed_cmdline(enter()), LineFeed::ExecuteEx("wq".into()));
    assert_eq!(e.cmdline(), None, "<CR> closes the one-shot command line");
}

#[test]
fn esc_aborts_the_command_line_without_executing() {
    let mut e = CommandLine::new(DEFAULT_CAP);
    e.open_cmdline(':', false);
    e.feed_cmdline(k('x'));
    assert_eq!(e.feed_cmdline(special(KeyCode::Esc)), LineFeed::Ignored);
    assert_eq!(e.cmdline(), None, "<Esc> closes the line and runs nothing");
}

#[test]
fn backspace_deletes_back_in_the_owned_buffer() {
    let mut e = CommandLine::new(DEFAULT_CAP);
    e.open_cmdline(':', false);
    e.feed_cmdline(k('a'));
    e.feed_cmdline(k('b'));
    e.feed_cmdline(special(KeyCode::Backspace));
    assert_eq!(e.cmdline(), Some((':', "a", 1)));
    e.feed_cmdline(special(KeyCode::Backspace));
    e.feed_cmdline(special(KeyCode::Backspace));
    assert_eq!(e.cmdline(), Some((':', "", 0)), "<BS> on an empty line keeps it open and empty");
}

#[test]
fn gq_enters_ex_mode_reprompts_and_visual_exits() {
    let mut e = CommandLine::new(DEFAULT_CAP);
    e.open_cmdline(':', true);
    assert_eq!(e.cmdline(), Some((':', "", 0)), "gQ opens the Ex command line");
    assert_eq!(accept_line(&mut e, "set"), LineFeed::ExecuteEx("set".into()));
    assert_eq!(e.cmdline(), Some((':', "", 0)), "Ex mode re-prompts after <CR>");
    assert_eq!(accept_line(&mut e, "visual"), LineFeed::Ignored);
    assert_eq!(e.cmdline(), None, "`:visual` exits Ex mode");
}

#[test]
fn ex_history_up_recalls_newest_then_older() {
    let mut e = CommandLine::new(DEFAULT_CAP);
    e.open_cmdline(':', false);
    accept_line(&mut e, "set foo");
    e.open_cmdline(':', false);
    accept_line(&mut e, "echo x");
    e.open_cmdline(':', false);
    e.feed_cmdline(up());
    assert_eq!(line(&e).as_deref(), Some("echo x"));
    e.feed_cmdline(up());
    assert_eq!(line(&e).as_deref(), Some("set foo"));
    // No older entry: the walk stays put.
    e.feed_cmdline(up());
    assert_eq!(line(&e).as_deref(), Some("set foo"));
}

#[test]
fn ex_history_up_prefix_filters() {
    let mut e = CommandLine::new(DEFAULT_CAP);
    for cmd in ["edit a", "echo y", "edit b"] {
        e.open_cmdline(':', false);
        accept_line(&mut e, cmd);
    }
    e.open_cmdline(':', false);
    e.feed_cmdline(k('e'));
    e.feed_cmdline(k('d')); // draft = "ed"
    e.feed_cmdline(up());
    assert_eq!(line(&e).as_deref(), Some("edit b"));
    e.feed_cmdline(up());
    assert_eq!(line(&e).as_deref(), Some("edit a")); // 'echo y' skipped by the "ed" prefix
}

#[test]
fn ctrl_p_walks_raw_history_unfiltered() {
    let mut e = CommandLine::new(DEFAULT_CAP);
    for cmd in ["edit a", "echo y", "edit b"] {
        e.open_cmdline(':', false);
        accept_line(&mut e, cmd);
    }
    e.open_cmdline(':', false);
    e.feed_cmdline(k('e')); // draft = "e"
    e.feed_cmdline(ctrl('p'));
    assert_eq!(line(&e).as_deref(), Some("edit b"));
    e.feed_cmdline(ctrl('p'));
    assert_eq!(line(&e).as_deref(), Some("echo y"));
}

#[test]
fn down_restores_typed_draft() {
    let mut e = CommandLine::new(DEFAULT_CAP);
    e.open_cmdline(':', false);
    accept_line(&mut e, "edit b");
    e.open_cmdline(':', false);
    e.feed_cmdline(k('e'));
    e.feed_cmdline(up());
    assert_eq!(line(&e).as_deref(), Some("edit b"));
    e.feed_cmdline(down());
    assert_eq!(line(&e).as_deref(), Some("e"));
    e.feed_cmdline(ctrl('n')); // already at draft → no-op
    assert_eq!(line(&e).as_deref(), Some("e"));
}

#[test]
fn search_history_is_separate_from_ex() {
    let mut e = CommandLine::new(DEFAULT_CAP);
    e.open_cmdline(':', false);
    accept_line(&mut e, "foo");
    e.open_cmdline('/', false);
    accept_line(&mut e, "bar");
    // The `:` prompt recalls only ex history.
    e.open_cmdline(':', false);
    e.feed_cmdline(up());
    assert_eq!(line(&e).as_deref(), Some("foo"));
    e.feed_cmdline(enter());
    // The `/` prompt recalls only search history.
    e.open_cmdline('/', false);
    e.feed_cmdline(up());
    assert_eq!(line(&e).as_deref(), Some("bar"));
    // `?` shares the same search ring.
    e.feed_cmdline(enter());
    e.open_cmdline('?', false);
    e.feed_cmdline(up());
    assert_eq!(line(&e).as_deref(), Some("bar"));
}

#[test]
fn immediate_repeat_is_deduped_in_history() {
    let mut e = CommandLine::new(DEFAULT_CAP);
    for cmd in ["foo", "bar", "foo"] {
        e.open_cmdline(':', false);
        accept_line(&mut e, cmd);
    }
    e.open_cmdline(':', false);
    e.feed_cmdline(up());
    assert_eq!(line(&e).as_deref(), Some("foo"));
    e.feed_cmdline(up());
    assert_eq!(line(&e).as_deref(), Some("bar"));
    // Only two distinct entries remain — a third <Up> stays on the oldest.
    e.feed_cmdline(up());
    assert_eq!(line(&e).as_deref(), Some("bar"));
}

#[test]
fn empty_line_is_not_recorded() {
    let mut e = CommandLine::new(DEFAULT_CAP);
    e.open_cmdline(':', false);
    accept_line(&mut e, "real");
    e.open_cmdline(':', false);
    accept_line(&mut e, ""); // empty → not stored
    e.open_cmdline(':', false);
    e.feed_cmdline(up());
    assert_eq!(line(&e).as_deref(), Some("real"));
}

#[test]
fn searches_complete_and_an_empty_one_reuses_the_last_pattern() {
    let mut e = CommandLine::new(DEFAULT_CAP);
    e.open_cmdline('/', false);
    assert_eq!(accept_line(&mut e, ""), LineFeed::Ignored, "no last search yet");
    e.open_cmdline('/', false);
    assert_eq!(
        accept_line(&mut e, "foo"),
        LineFeed::Search { pattern: "foo".into(), backward: false }
    );
    assert_eq!(e.cmdline(), None);
    assert_eq!(e.last_search(), Some("foo"));
    e.open_cmdline('?', false);
    assert_eq!(
        accept_line(&mut e, ""),
        LineFeed::Search { pattern: "foo".into(), backward: true },
        "`?<CR>` repeats the last pattern backward"
    );
    e.set_last_search("word".into(), true);
    assert_eq!(
        e.submit_search(String::new(), false),
        LineFeed::Search { pattern: "word".into(), backward: false }
    );
}

#[test]
fn the_minibuffer_and_the_expression_prompt_complete_into_their_outcomes() {
    let mut e = CommandLine::new(DEFAULT_CAP);
    e.open_cmdline(':', false);
    accept_line(&mut e, "set nu");
    e.open_minibuffer();
    assert_eq!(e.cmdline(), Some((':', "", 0)));
    // No history in the minibuffer.
    assert_eq!(e.feed_cmdline(up()), LineFeed::Pending);
    assert_eq!(line(&e).as_deref(), Some(""));
    assert_eq!(accept_line(&mut e, "kill-line"), LineFeed::Command(EmacsCommand::KillLine));
    e.open_expr_prompt(ExprTarget::Insert);
    assert_eq!(e.cmdline(), Some(('=', "", 0)));
    assert_eq!(
        accept_line(&mut e, "1+2"),
        LineFeed::Expr { target: ExprTarget::Insert, text: "1+2".into() }
    );
    e.open_expr_prompt(ExprTarget::Paste);
    e.feed_cmdline(k('x'));
    assert_eq!(e.feed_cmdline(special(KeyCode::Esc)), LineFeed::Ignored);
    assert_eq!(e.cmdline(), None);
    assert_eq!(e.feed_cmdline(k('x')), LineFeed::Ignored, "no line open");
}

#[test]
fn cmdwin_cr_executes_the_selected_ex_line_and_closes() {
    let mut e = CommandLine::new(DEFAULT_CAP);
    for cmd in ["set nu", "write"] {
        e.open_cmdline(':', false);
        accept_line(&mut e, cmd);
    }
    e.open_cmdwin(':');
    assert_eq!(e.cmdwin(), Some(':'), "the window is open over the ex ring");
    // The cursor starts on the empty last line; running it is a no-op close (Vim).
    assert_eq!(e.feed_cmdwin(enter()), LineFeed::Ignored);
    assert_eq!(e.cmdwin(), None, "<CR> on the empty line just closes");
    // Re-open and navigate up to the newest entry, then run it.
    e.open_cmdwin(':');
    e.feed_cmdwin(k('k')); // `k` = up → "write"
    assert_eq!(
        e.feed_cmdwin(enter()),
        LineFeed::ExecuteEx("write".into()),
        "the selected historical ex line executes"
    );
    assert_eq!(e.cmdwin(), None, "the window closes after running");
    // The run line was recorded in the ex ring via the same accept path a `:` prompt uses.
    e.open_cmdline(':', false);
    e.feed_cmdline(up());
    assert_eq!(line(&e).as_deref(), Some("write"));
}

#[test]
fn cmdwin_navigates_with_j_k_and_arrows() {
    let mut e = CommandLine::new(DEFAULT_CAP);
    for cmd in ["one", "two", "three"] {
        e.open_cmdline(':', false);
        accept_line(&mut e, cmd);
    }
    e.open_cmdwin(':');
    // rows(): oldest first, then the empty selected last line (4 rows).
    let rows = e.cmdwin_rows();
    assert_eq!(rows.len(), 4);
    assert_eq!(rows[0].0, "one");
    assert!(rows[3].1, "the empty last row is selected initially");
    // `k`/<Up> move toward older; `j`/<Down> back toward the empty line.
    e.feed_cmdwin(up()); // → three
    e.feed_cmdwin(k('k')); // → two
    assert_eq!(e.feed_cmdwin(enter()), LineFeed::ExecuteEx("two".into()));
}

#[test]
fn cmdwin_esc_and_ctrl_c_close_without_executing() {
    let mut e = CommandLine::new(DEFAULT_CAP);
    e.open_cmdline(':', false);
    accept_line(&mut e, "quitcmd");
    // <Esc> closes without running.
    e.open_cmdwin(':');
    e.feed_cmdwin(up()); // select "quitcmd"
    assert_eq!(e.feed_cmdwin(special(KeyCode::Esc)), LineFeed::Ignored);
    assert_eq!(e.cmdwin(), None, "<Esc> closes the window");
    // <C-c> likewise closes without running.
    e.open_cmdwin(':');
    e.feed_cmdwin(up());
    assert_eq!(e.feed_cmdwin(ctrl('c')), LineFeed::Ignored);
    assert_eq!(e.cmdwin(), None, "<C-c> closes the window");
}

#[test]
fn cmdwin_search_line_runs_as_a_search() {
    let mut e = CommandLine::new(DEFAULT_CAP);
    // Populate the SEARCH ring with a `/` line.
    e.open_cmdline('/', false);
    accept_line(&mut e, "foo");
    // `q/` mirrors the search ring; running the line performs the search.
    e.open_cmdwin('/');
    e.feed_cmdwin(k('k')); // select "foo"
    assert_eq!(
        e.feed_cmdwin(enter()),
        LineFeed::Search { pattern: "foo".into(), backward: false },
        "q/ + <CR> runs the chosen pattern as a forward search"
    );
    assert_eq!(e.cmdwin(), None);
}

#[test]
fn cmdwin_q_question_searches_backward() {
    let mut e = CommandLine::new(DEFAULT_CAP);
    e.open_cmdline('/', false);
    accept_line(&mut e, "bar");
    // `q?` mirrors the same shared search ring but runs the line BACKWARD.
    e.open_cmdwin('?');
    e.feed_cmdwin(k('k'));
    assert_eq!(
        e.feed_cmdwin(enter()),
        LineFeed::Search { pattern: "bar".into(), backward: true }
    );
}

#[test]
fn cmdwin_g_jumps_to_the_empty_last_line_and_other_keys_are_swallowed() {
    let mut e = CommandLine::new(DEFAULT_CAP);
    for cmd in ["a", "b", "c"] {
        e.open_cmdline(':', false);
        accept_line(&mut e, cmd);
    }
    e.open_cmdwin(':');
    e.feed_cmdwin(up());
    e.feed_cmdwin(up());
    e.feed_cmdwin(up());
    e.feed_cmdwin(up()); // bounded at the oldest
    assert!(e.cmdwin_rows()[0].1);
    assert_eq!(e.feed_cmdwin(k('x')), LineFeed::Pending);
    assert_eq!(e.feed_cmdwin(k('G')), LineFeed::Pending);
    assert!(e.cmdwin_rows()[3].1, "G selects the empty last line");
    e.feed_cmdwin(special(KeyCode::Down)); // bounded at the bottom
    assert!(e.cmdwin_rows()[3].1);
    e.feed_cmdwin(k('k'));
    e.feed_cmdwin(k('j'));
    assert_eq!(e.feed_cmdwin(enter()), LineFeed::Ignored);
    assert_eq!(e.feed_cmdwin(enter()), LineFeed::Ignored, "no window open");
    assert!(e.cmdwin_rows().is_empty());
}

#[test]
fn mx_runs_a_known_command_and_ignores_an_unknown_name() {
    let mut e = CommandLine::new(DEFAULT_CAP);
    e.open_minibuffer();
    assert_eq!(accept_line(&mut e, "save-buffer"), LineFeed::Command(EmacsCommand::Save));
    assert_eq!(e.cmdline(), None);
    e.open_minibuffer();
    assert_eq!(accept_line(&mut e, "kill-region"), LineFeed::Command(EmacsCommand::KillRegion));
    e.open_minibuffer();
    assert_eq!(accept_line(&mut e, "no-such-command"), LineFeed::Ignored);
    assert_eq!(e.cmdline(), None);
}

#[test]
fn the_command_registry_knows_its_names() {
    assert_eq!(emacs_command_by_name("forward-char"), Some(EmacsCommand::MoveRight));
    assert_eq!(emacs_command_by_name("  undo\t"), Some(EmacsCommand::Undo));
    assert_eq!(
        emacs_command_by_name("capitalize-word"),
        Some(EmacsCommand::CaseWord { case: WordCase::Capitalize })
    );
    assert_eq!(
        emacs_command_by_name("just-one-space"),
        Some(EmacsCommand::HorizontalSpace { keep_one: true })
    );
    assert_eq!(
        emacs_command_by_name("end-of-buffer"),
        Some(EmacsCommand::BufferEdge { start: false })
    );
    assert_eq!(emacs_command_by_name("exchange-point-and-mark"), Some(EmacsCommand::ExchangePointMark));
    assert_eq!(emacs_command_by_name("Undo"), None);
    assert_eq!(emacs_command_by_name("undo-tree"), None);
    assert_eq!(emacs_command_by_name(""), None);
}
