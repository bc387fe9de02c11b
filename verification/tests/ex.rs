use ruse_tui::input::ex::{
    parse_ex, parse_substitute, reuse_last_search, BufTarget, EditorOption, Ex, GlobalCmd, GlobalPayload,
    GlobalSpec, LineAddr, ReadSource, SubFlags, SubRange, SubSpec,
};

fn substitute_with(pattern: &str) -> Ex {
    Ex::Substitute(SubSpec {
        range: SubRange::CurrentLine,
        pattern: pattern.to_string(),
        replacement: "X".to_string(),
        global: false,
        ignore_case: None,
        confirm: false,
        count_only: false,
    })
}

fn pattern_of(ex: &Ex) -> &str {
    match ex {
        Ex::Substitute(s) => &s.pattern,
        _ => unreachable!(),
    }
}

fn normal(line: &str) -> (bool, Option<SubRange>, String) {
    match parse_ex(line) {
        Ex::Normal { bang, range, keys } => (bang, range, keys),
        other => panic!("expected Ex::Normal, got {other:?}"),
    }
}

fn drop_flags() -> Option<SubFlags> {
    Some(SubFlags::default())
}

fn g_flags() -> Option<SubFlags> {
    Some(SubFlags {
        global: true,
        ignore_case: None,
    })
}

#[test]
fn empty_pattern_borrows_the_last_search() {
    let mut ex = substitute_with("");
    reuse_last_search(&mut ex, Some("foo"));
    assert_eq!(pattern_of(&ex), "foo");
}

#[test]
fn non_empty_pattern_is_left_alone() {
    let mut ex = substitute_with("bar");
    reuse_last_search(&mut ex, Some("foo"));
    assert_eq!(
        pattern_of(&ex),
        "bar",
        "an explicit pattern wins over the last search"
    );
}

#[test]
fn empty_pattern_without_a_last_search_stays_empty() {
    let mut ex = substitute_with("");
    reuse_last_search(&mut ex, None);
    assert_eq!(pattern_of(&ex), "");
}

#[test]
fn no_range_takes_the_whole_verbatim_payload() {
    assert_eq!(normal("normal dwx"), (false, None, "dwx".to_string()));
    // The abbreviations `norm`/`norma` resolve the same.
    assert_eq!(normal("norm dwx"), (false, None, "dwx".to_string()));
    assert_eq!(normal("norma dwx"), (false, None, "dwx".to_string()));
    // Only the FIRST space is the delimiter; further spaces are part of the keys.
    assert_eq!(normal("normal f x"), (false, None, "f x".to_string()));
}

#[test]
fn bang_is_parsed_and_accepted() {
    assert_eq!(normal("normal! A;"), (true, None, "A;".to_string()));
}

#[test]
fn range_prefixes_resolve() {
    assert_eq!(
        normal("%normal A;"),
        (false, Some(SubRange::WholeFile), "A;".to_string())
    );
    assert_eq!(
        normal("2,3normal 0x"),
        (false, Some(SubRange::Lines(2, 3)), "0x".to_string())
    );
    assert_eq!(
        normal(".normal x"),
        (false, Some(SubRange::CurrentLine), "x".to_string())
    );
}

#[test]
fn join_parses_range_verb_and_bang() {
    // No range → current line.
    assert_eq!(
        parse_ex("j"),
        Ex::Join {
            range: SubRange::CurrentLine,
            bang: false
        }
    );
    // The abbreviations `jo`/`joi`/`join` all resolve.
    for v in ["jo", "joi", "join"] {
        assert_eq!(
            parse_ex(v),
            Ex::Join {
                range: SubRange::CurrentLine,
                bang: false
            }
        );
    }
    // A line range.
    assert_eq!(
        parse_ex("2,4join"),
        Ex::Join {
            range: SubRange::Lines(2, 4),
            bang: false
        }
    );
    // The `!` (raw `gJ`) form.
    assert_eq!(
        parse_ex("j!"),
        Ex::Join {
            range: SubRange::CurrentLine,
            bang: true
        }
    );
    assert_eq!(
        parse_ex("%join!"),
        Ex::Join {
            range: SubRange::WholeFile,
            bang: true
        }
    );
    // `:jumps` is NOT a join (its exact-match arm wins first).
    assert_eq!(parse_ex("jumps"), Ex::Jumps);
}

#[test]
fn key_notation_stays_verbatim_in_the_payload() {
    // The payload is stored VERBATIM; the executor resolves `<Esc>` etc. later.
    assert_eq!(
        normal("normal Ihi<Esc>"),
        (false, None, "Ihi<Esc>".to_string())
    );
}

#[test]
fn non_normal_and_bare_normal_fall_through() {
    // `:normalx` is not the `:normal` verb.
    assert!(matches!(parse_ex("normalx"), Ex::Unknown(_)));
    // A bare `:normal` (no delimiting space / keys) is not a valid invocation.
    assert!(matches!(parse_ex("normal"), Ex::Unknown(_)));
    assert!(matches!(parse_ex("normal!"), Ex::Unknown(_)));
}

#[test]
fn shift_parses_range_direction_and_levels() {
    // No range → current line, one level.
    assert_eq!(
        parse_ex(">"),
        Ex::Shift {
            range: SubRange::CurrentLine,
            left: false,
            levels: 1
        }
    );
    assert_eq!(
        parse_ex("<"),
        Ex::Shift {
            range: SubRange::CurrentLine,
            left: true,
            levels: 1
        }
    );
    // Repeated verb chars are the level count (Vim `:>>>` = 3, `:<<` = 2).
    assert_eq!(
        parse_ex(">>>"),
        Ex::Shift {
            range: SubRange::CurrentLine,
            left: false,
            levels: 3
        }
    );
    assert_eq!(
        parse_ex("<<"),
        Ex::Shift {
            range: SubRange::CurrentLine,
            left: true,
            levels: 2
        }
    );
    // A line range and the whole-file `%`.
    assert_eq!(
        parse_ex("2,4>"),
        Ex::Shift {
            range: SubRange::Lines(2, 4),
            left: false,
            levels: 1
        }
    );
    assert_eq!(
        parse_ex("%<<"),
        Ex::Shift {
            range: SubRange::WholeFile,
            left: true,
            levels: 2
        }
    );
}

#[test]
fn mixed_run_or_trailing_junk_is_not_a_shift() {
    // A mixed `>`/`<` run is not this command.
    assert!(matches!(parse_ex("><"), Ex::Unknown(_)));
    // The trailing-count form `:> 5` is deferred; with trailing junk it is not a shift.
    assert!(matches!(parse_ex("> 5"), Ex::Unknown(_)));
    assert!(matches!(parse_ex(">x"), Ex::Unknown(_)));
}

#[test]
fn bare_s_and_ampersand_drop_flags_on_the_current_line() {
    // Bare `:s` and `:&` both repeat the last `:s` on the current line WITHOUT its flags.
    for line in ["s", "&"] {
        assert_eq!(
            parse_ex(line),
            Ex::RepeatSubstitute {
                range: SubRange::CurrentLine,
                flags: drop_flags(),
            },
            "`:{line}` = flag-less current-line repeat"
        );
    }
}

#[test]
fn double_ampersand_keeps_flags() {
    // `:&&` (a run of two or more `&`) KEEPS the stored flags (`flags = None`).
    assert_eq!(
        parse_ex("&&"),
        Ex::RepeatSubstitute {
            range: SubRange::CurrentLine,
            flags: None,
        }
    );
}

#[test]
fn s_with_only_flags_uses_the_given_flags() {
    // `:s g` and `:sg` (space optional) both mean "repeat with the given flag(s)".
    for line in ["s g", "sg"] {
        assert_eq!(
            parse_ex(line),
            Ex::RepeatSubstitute {
                range: SubRange::CurrentLine,
                flags: g_flags(),
            },
            "`:{line}` = repeat with `g`"
        );
    }
    // `i`/`I` case flags come through too.
    assert_eq!(
        parse_ex("s i"),
        Ex::RepeatSubstitute {
            range: SubRange::CurrentLine,
            flags: Some(SubFlags {
                global: false,
                ignore_case: Some(true),
            }),
        }
    );
}

#[test]
fn ranges_resolve_for_every_form() {
    assert_eq!(
        parse_ex("2,3&&"),
        Ex::RepeatSubstitute {
            range: SubRange::Lines(2, 3),
            flags: None,
        }
    );
    assert_eq!(
        parse_ex("%s"),
        Ex::RepeatSubstitute {
            range: SubRange::WholeFile,
            flags: drop_flags(),
        }
    );
    assert_eq!(
        parse_ex("5&"),
        Ex::RepeatSubstitute {
            range: SubRange::Lines(5, 5),
            flags: drop_flags(),
        }
    );
}

#[test]
fn real_substitute_and_other_verbs_are_not_repeat_forms() {
    // A real `:s/pat/rep/` stays a `Substitute`, not a repeat.
    assert!(matches!(parse_ex("s/a/b/"), Ex::Substitute(_)));
    // Other `s`-verbs and trailing junk fall through (they never reach the repeat parser or it rejects).
    assert!(matches!(parse_ex("sort"), Ex::Sort(..)));
    assert!(matches!(parse_ex("split"), Ex::Split));
    assert!(matches!(parse_ex("s 3"), Ex::Unknown(_))); // trailing count is deferred (like `:d`/`:>`)
    assert!(matches!(parse_ex("sx"), Ex::Unknown(_))); // `x` is not a repeat flag
}

#[test]
fn read_file_forms_parse_addr_and_path() {
    // Bare `:r`/`:read` → below the current line.
    assert_eq!(
        parse_ex("r ins.txt"),
        Ex::Read {
            addr: LineAddr::Current,
            source: ReadSource::File("ins.txt".into())
        }
    );
    assert_eq!(
        parse_ex("read ins.txt"),
        Ex::Read {
            addr: LineAddr::Current,
            source: ReadSource::File("ins.txt".into())
        }
    );
    // A line address: `:2r` below line 2, `:0r` at the top, `:$r` after the last line.
    assert_eq!(
        parse_ex("2r ins.txt"),
        Ex::Read {
            addr: LineAddr::Line(2),
            source: ReadSource::File("ins.txt".into())
        }
    );
    assert_eq!(
        parse_ex("0r ins.txt"),
        Ex::Read {
            addr: LineAddr::Line(0),
            source: ReadSource::File("ins.txt".into())
        }
    );
    assert_eq!(
        parse_ex("$r ins.txt"),
        Ex::Read {
            addr: LineAddr::Last,
            source: ReadSource::File("ins.txt".into())
        }
    );
}

#[test]
fn read_command_form_parses_after_the_bang() {
    assert_eq!(
        parse_ex("r !sort"),
        Ex::Read {
            addr: LineAddr::Current,
            source: ReadSource::Command("sort".into())
        }
    );
    // Leading space after `!` is trimmed; the rest of the command is verbatim.
    assert_eq!(
        parse_ex("3r ! ls -la"),
        Ex::Read {
            addr: LineAddr::Line(3),
            source: ReadSource::Command("ls -la".into())
        }
    );
}

#[test]
fn bang_run_vs_filter_is_decided_by_the_range() {
    // No range → `:!cmd` runs and shows output.
    assert_eq!(parse_ex("!ls"), Ex::Shell("ls".into()));
    assert_eq!(parse_ex("!echo hi"), Ex::Shell("echo hi".into()));
    // A range → `:{range}!cmd` filters.
    assert_eq!(
        parse_ex("%!sort"),
        Ex::Filter {
            range: SubRange::WholeFile,
            cmd: "sort".into()
        }
    );
    assert_eq!(
        parse_ex("2,3!sort"),
        Ex::Filter {
            range: SubRange::Lines(2, 3),
            cmd: "sort".into()
        }
    );
    // An explicit `.` is a range (current line), so it filters — distinct from a bare `:!`.
    assert_eq!(
        parse_ex(".!tr a-z A-Z"),
        Ex::Filter {
            range: SubRange::CurrentLine,
            cmd: "tr a-z A-Z".into()
        }
    );
}

#[test]
fn non_read_and_empty_forms_fall_through() {
    // A bare `:r`/`:read` (no argument — re-read the current file) is a documented non-goal.
    assert!(matches!(parse_ex("r"), Ex::Unknown(_)));
    assert!(matches!(parse_ex("read"), Ex::Unknown(_)));
    // `:r !` with no command is not a valid read.
    assert!(matches!(parse_ex("r !"), Ex::Unknown(_)));
    // A `!` with no command, and a range-only `!`, are not shell forms.
    assert!(matches!(parse_ex("!"), Ex::Unknown(_)));
    assert!(matches!(parse_ex("%!"), Ex::Unknown(_)));
    // `:registers`/`:rename`/`:redo` are NOT swallowed by the `:r` verb.
    assert_eq!(parse_ex("registers"), Ex::Registers);
    assert_eq!(parse_ex("rename foo"), Ex::Rename("foo".into()));
    assert!(matches!(parse_ex("redo"), Ex::Unknown(_)));
}

#[test]
fn parses_hlsearch_and_incsearch_toggles() {
    assert_eq!(parse_ex("set hlsearch"), Ex::SetHlSearch(true));
    assert_eq!(parse_ex("set nohls"), Ex::SetHlSearch(false));
    assert_eq!(parse_ex("set incsearch"), Ex::SetIncSearch(true));
    assert_eq!(parse_ex("set nois"), Ex::SetIncSearch(false));
    // The abbreviations still resolve, and unrelated options are untouched.
    assert_eq!(parse_ex("set hls"), Ex::SetHlSearch(true));
    assert_eq!(parse_ex("set ic"), Ex::SetOption(EditorOption::IgnoreCase(true)));
}

#[test]
fn parses_fixeol_toggles() {
    assert_eq!(parse_ex("set fixeol"), Ex::SetFixEol(true));
    assert_eq!(parse_ex("set nofixeol"), Ex::SetFixEol(false));
    // Vim's long spelling resolves the same way.
    assert_eq!(parse_ex("set fixendofline"), Ex::SetFixEol(true));
    assert_eq!(parse_ex("set nofixendofline"), Ex::SetFixEol(false));
}

#[test]
fn parse_lmap_and_lunmap() {
    assert_eq!(
        parse_ex("lmap a б"),
        Ex::Lmap {
            lhs: 'a', rhs: 'б'
        }
    );
    assert_eq!(parse_ex("lunmap a"), Ex::Lunmap { lhs: 'a' });
    // A verb needs whitespace, both sides are single chars, and no trailing tokens — else Unknown.
    assert!(matches!(parse_ex("lmapx"), Ex::Unknown(_)));
    assert!(matches!(parse_ex("lmap a"), Ex::Unknown(_)));
    assert!(matches!(parse_ex("lmap ab cd"), Ex::Unknown(_)));
    assert!(matches!(parse_ex("lmap a b c"), Ex::Unknown(_)));
    assert!(matches!(parse_ex("lunmapx"), Ex::Unknown(_)));
}

#[test]
fn parse_quit_and_quit_bang() {
    assert_eq!(parse_ex("q"), Ex::Quit);
    assert_eq!(parse_ex("quit"), Ex::Quit);
    assert_eq!(parse_ex("q!"), Ex::QuitForce);
    assert_eq!(parse_ex("quit!"), Ex::QuitForce);
}

#[test]
fn parse_only() {
    assert_eq!(parse_ex("only"), Ex::Only);
    assert_eq!(parse_ex("on"), Ex::Only);
}

#[test]
fn parse_delete_ranges() {
    assert_eq!(parse_ex("d"), Ex::Delete(SubRange::CurrentLine));
    assert_eq!(parse_ex("delete"), Ex::Delete(SubRange::CurrentLine));
    assert_eq!(parse_ex("2,5d"), Ex::Delete(SubRange::Lines(2, 5)));
    assert_eq!(parse_ex("%d"), Ex::Delete(SubRange::WholeFile));
    assert_eq!(parse_ex("3delete"), Ex::Delete(SubRange::Lines(3, 3)));
    // Not a delete verb → falls through (Unknown), not a spurious Delete.
    assert!(matches!(parse_ex("diffthis"), Ex::Unknown(_)));
}

#[test]
fn parse_yank_ranges() {
    assert_eq!(parse_ex("y"), Ex::Yank(SubRange::CurrentLine));
    assert_eq!(parse_ex("yank"), Ex::Yank(SubRange::CurrentLine));
    assert_eq!(parse_ex("1,3y"), Ex::Yank(SubRange::Lines(1, 3)));
    assert_eq!(parse_ex("%yank"), Ex::Yank(SubRange::WholeFile));
}

#[test]
fn parse_move_and_copy() {
    assert_eq!(
        parse_ex("3,5m10"),
        Ex::Move(SubRange::Lines(3, 5), LineAddr::Line(10))
    );
    assert_eq!(
        parse_ex("m0"),
        Ex::Move(SubRange::CurrentLine, LineAddr::Line(0))
    );
    assert_eq!(
        parse_ex("move$"),
        Ex::Move(SubRange::CurrentLine, LineAddr::Last)
    );
    assert_eq!(
        parse_ex(".m$"),
        Ex::Move(SubRange::CurrentLine, LineAddr::Last)
    );
    assert_eq!(
        parse_ex("1,2t0"),
        Ex::Copy(SubRange::Lines(1, 2), LineAddr::Line(0))
    );
    assert_eq!(
        parse_ex("copy."),
        Ex::Copy(SubRange::CurrentLine, LineAddr::Current)
    );
    assert_eq!(
        parse_ex("t5"),
        Ex::Copy(SubRange::CurrentLine, LineAddr::Line(5))
    );
    // A move/copy with no destination is not a valid command → Unknown.
    assert!(matches!(parse_ex("m"), Ex::Unknown(_)));
}

#[test]
fn parse_put() {
    // Bare `:put` / `:pu` → the unnamed register after the current line.
    assert_eq!(
        parse_ex("put"),
        Ex::Put {
            addr: LineAddr::Current,
            reg: None
        }
    );
    assert_eq!(
        parse_ex("pu"),
        Ex::Put {
            addr: LineAddr::Current,
            reg: None
        }
    );
    // Addressed puts: `:2put` (after line 2), `:0put` (top), `:$put` (last line), `:.put` (current).
    assert_eq!(
        parse_ex("2put"),
        Ex::Put {
            addr: LineAddr::Line(2),
            reg: None
        }
    );
    assert_eq!(
        parse_ex("0put"),
        Ex::Put {
            addr: LineAddr::Line(0),
            reg: None
        }
    );
    assert_eq!(
        parse_ex("$put"),
        Ex::Put {
            addr: LineAddr::Last,
            reg: None
        }
    );
    assert_eq!(
        parse_ex(".put"),
        Ex::Put {
            addr: LineAddr::Current,
            reg: None
        }
    );
    // A register argument (whitespace-separated): named, numbered, and the clipboard register.
    assert_eq!(
        parse_ex("put a"),
        Ex::Put {
            addr: LineAddr::Current,
            reg: Some('a')
        }
    );
    assert_eq!(
        parse_ex("2put a"),
        Ex::Put {
            addr: LineAddr::Line(2),
            reg: Some('a')
        }
    );
    assert_eq!(
        parse_ex("put +"),
        Ex::Put {
            addr: LineAddr::Current,
            reg: Some('+')
        }
    );
    assert_eq!(
        parse_ex("pu 0"),
        Ex::Put {
            addr: LineAddr::Current,
            reg: Some('0')
        }
    );
    // The register must be separated by whitespace — `:puta` is not `:put a` (Vim E492) → Unknown.
    assert!(matches!(parse_ex("puta"), Ex::Unknown(_)));
    // A two-char register argument is not the single-char form → Unknown.
    assert!(matches!(parse_ex("put ab"), Ex::Unknown(_)));
}

#[test]
fn parse_edit_reload() {
    assert_eq!(parse_ex("e!"), Ex::EditReload);
    assert_eq!(parse_ex("edit!"), Ex::EditReload);
}

#[test]
fn parse_time_travel() {
    assert_eq!(parse_ex("earlier"), Ex::Earlier(1));
    assert_eq!(parse_ex("ea 3"), Ex::Earlier(3));
    assert_eq!(parse_ex("later"), Ex::Later(1));
    assert_eq!(parse_ex("lat 5"), Ex::Later(5));
    // A non-numeric count is not understood → Unknown.
    assert!(matches!(parse_ex("earlier x"), Ex::Unknown(_)));
}

#[test]
fn parse_set_options() {
    assert_eq!(parse_ex("set ic"), Ex::SetOption(EditorOption::IgnoreCase(true)));
    assert_eq!(
        parse_ex("set noignorecase"),
        Ex::SetOption(EditorOption::IgnoreCase(false))
    );
    assert_eq!(parse_ex("set scs"), Ex::SetOption(EditorOption::SmartCase(true)));
    assert_eq!(
        parse_ex("set expandtab"),
        Ex::SetOption(EditorOption::ExpandTab(true))
    );
    assert_eq!(
        parse_ex("set noet"),
        Ex::SetOption(EditorOption::ExpandTab(false))
    );
    assert_eq!(parse_ex("set sw=2"), Ex::SetOption(EditorOption::ShiftWidth(2)));
    assert_eq!(
        parse_ex("set shiftwidth=8"),
        Ex::SetOption(EditorOption::ShiftWidth(8))
    );
    // Unknown option → not a Set (falls through to Unknown).
    assert!(matches!(parse_ex("set bogus"), Ex::Unknown(_)));
    assert!(matches!(parse_ex("set"), Ex::Unknown(_)));
}

#[test]
fn parse_buffer_delete() {
    assert_eq!(parse_ex("bd"), Ex::BufferDelete { force: false });
    assert_eq!(parse_ex("bdelete"), Ex::BufferDelete { force: false });
    assert_eq!(parse_ex("bd!"), Ex::BufferDelete { force: true });
    assert_eq!(parse_ex("bdelete!"), Ex::BufferDelete { force: true });
}

#[test]
fn parse_sort_flags() {
    // No range → whole file; flags parse; `!` = reverse.
    match parse_ex("sort! n") {
        Ex::Sort(r, s) => {
            assert_eq!(r, SubRange::WholeFile);
            assert!(s.reverse && s.numeric && !s.unique);
        }
        other => panic!("expected Sort, got {other:?}"),
    }
    match parse_ex("1,3sort u") {
        Ex::Sort(r, s) => {
            assert_eq!(r, SubRange::Lines(1, 3));
            assert!(!s.reverse && !s.numeric && s.unique);
        }
        other => panic!("expected Sort, got {other:?}"),
    }
    // `i` = case-insensitive.
    match parse_ex("sort i") {
        Ex::Sort(_, s) => assert!(s.ignore_case && s.pattern.is_none()),
        other => panic!("expected Sort, got {other:?}"),
    }
    // `/pattern/` — the pattern is captured (delimiters stripped); `r` alone (no pattern) stays inert.
    match parse_ex("sort /id=/") {
        Ex::Sort(_, s) => {
            assert_eq!(s.pattern.as_deref(), Some("id="));
            assert!(!s.use_match);
        }
        other => panic!("expected Sort, got {other:?}"),
    }
    // `/pattern/ r` — sort on the matched text (order-independent: flags precede the pattern in Vim, so
    // this is written `sort r /pat/`).
    match parse_ex("sort rn /\\d\\+/") {
        Ex::Sort(_, s) => {
            assert_eq!(s.pattern.as_deref(), Some("\\d\\+"));
            assert!(s.use_match && s.numeric);
        }
        other => panic!("expected Sort, got {other:?}"),
    }
}

#[test]
fn set_textwidth_parses() {
    assert_eq!(
        parse_ex("set textwidth=72"),
        Ex::SetOption(EditorOption::TextWidth(72))
    );
    assert_eq!(parse_ex("set tw=0"), Ex::SetOption(EditorOption::TextWidth(0)));
}

#[test]
fn buffer_ex_commands_parse() {
    assert_eq!(parse_ex("enew"), Ex::Enew);
    assert_eq!(parse_ex("ene"), Ex::Enew);
    assert_eq!(parse_ex("ls"), Ex::Buffers);
    assert_eq!(parse_ex("buffers"), Ex::Buffers);
    assert_eq!(parse_ex("bn"), Ex::BufferNext);
    assert_eq!(parse_ex("bnext"), Ex::BufferNext);
    assert_eq!(parse_ex("bp"), Ex::BufferPrev);
    assert_eq!(parse_ex("bprevious"), Ex::BufferPrev);
    assert_eq!(parse_ex("b 3"), Ex::Buffer(BufTarget::Number(3)));
    assert_eq!(parse_ex("b2"), Ex::Buffer(BufTarget::Number(2)));
    assert_eq!(parse_ex("buffer 5"), Ex::Buffer(BufTarget::Number(5)));
    assert_eq!(parse_ex("b#"), Ex::Buffer(BufTarget::Alternate));
    assert!(matches!(parse_ex("b foo"), Ex::Unknown(_)));
    assert!(matches!(parse_ex("bx"), Ex::Unknown(_)));
    // `:e {file}` / `:edit {file}` open a file; `:enew`/`:ene` and a bare `:e` are NOT edits.
    assert_eq!(parse_ex("e src/main.rs"), Ex::Edit("src/main.rs".into()));
    assert_eq!(parse_ex("edit a.txt"), Ex::Edit("a.txt".into()));
    assert_eq!(parse_ex("enew"), Ex::Enew);
    assert_eq!(parse_ex("ene"), Ex::Enew);
    assert!(
        matches!(parse_ex("e"), Ex::Unknown(_)),
        "bare :e is not an edit"
    );
}

#[test]
fn gdefault_inverts_the_g_flag() {
    // With gdefault ON, a BARE `:s///` is global and `:s///g` is single.
    assert!(parse_substitute("s/a/b/", true).unwrap().global);
    assert!(!parse_substitute("s/a/b/g", true).unwrap().global);
}

#[test]
fn sort_is_not_a_substitute() {
    // `:sort` is its own command (the `o` is not an `:s` delimiter), never a substitute.
    assert!(matches!(parse_ex("sort"), Ex::Sort(_, _)));
    assert!(!matches!(parse_ex("sort"), Ex::Substitute(_)));
}

#[test]
fn vsplit_is_not_a_global() {
    // `:vsplit` must stay the window command, not be parsed as `:v`-global.
    assert_eq!(parse_ex("vsplit"), Ex::VSplit);
    assert_eq!(parse_ex("vs"), Ex::VSplit);
}

#[test]
fn global_normalx_is_not_the_normal_verb() {
    // `normalx` is not `normal x` — with no `d`/`s`/`normal` payload the whole `:g` line is Unknown.
    assert!(matches!(parse_ex("g/foo/normalx"), Ex::Unknown(_)));
    // A bare `normal` (no delimiting space/keys) is likewise not a valid payload.
    assert!(matches!(parse_ex("g/foo/normal"), Ex::Unknown(_)));
}

#[test]
fn noh_variants_parse() {
    assert_eq!(parse_ex("noh"), Ex::NoHighlight);
    assert_eq!(parse_ex("nohl"), Ex::NoHighlight);
    assert_eq!(parse_ex("nohlsearch"), Ex::NoHighlight);
}

#[test]
fn substitute_splits_on_unescaped_delimiters() {
    let sp = parse_substitute(r"%s/a\/b/c/gI", false).unwrap();
    assert_eq!(sp.range, SubRange::WholeFile);
    assert_eq!(sp.pattern, r"a\/b");
    assert_eq!(sp.replacement, "c");
    assert!(sp.global);
    assert_eq!(sp.ignore_case, Some(false));
    // No closing delimiter: the replacement runs to the end.
    let sp = parse_substitute("s#x#y", false).unwrap();
    assert_eq!((sp.pattern.as_str(), sp.replacement.as_str()), ("x", "y"));
    // Only a pattern.
    let sp = parse_substitute("3,1s/x", false).unwrap();
    assert_eq!(sp.range, SubRange::Lines(1, 3));
    assert_eq!((sp.pattern.as_str(), sp.replacement.as_str()), ("x", ""));
    // `n` and `c` flags.
    let sp = parse_substitute("s/a/b/nc", false).unwrap();
    assert!(sp.count_only && sp.confirm && !sp.global);
    // A letter is no delimiter.
    assert!(parse_substitute("sxaxbx", false).is_none());
}

#[test]
fn global_commands_parse() {
    match parse_ex("g/foo/d") {
        Ex::Global(g) => {
            assert_eq!(g.range, SubRange::WholeFile);
            assert_eq!(g.pattern, "foo");
            assert!(!g.negate);
            assert_eq!(g.cmd, ruse_tui::input::ex::GlobalPayload::Core(ruse_tui::input::ex::GlobalCmd::Delete));
        }
        other => panic!("expected Global, got {other:?}"),
    }
    match parse_ex("2,3v/x/s/a/b/g") {
        Ex::Global(g) => {
            assert_eq!(g.range, SubRange::Lines(2, 3));
            assert!(g.negate);
            assert_eq!(
                g.cmd,
                ruse_tui::input::ex::GlobalPayload::Core(ruse_tui::input::ex::GlobalCmd::Substitute {
                    pattern: "a".to_string(),
                    replacement: "b".to_string(),
                    flags: SubFlags { global: true, ignore_case: None },
                })
            );
        }
        other => panic!("expected Global, got {other:?}"),
    }
    match parse_ex("g!/x/normal  A;") {
        Ex::Global(g) => {
            assert!(g.negate);
            assert_eq!(
                g.cmd,
                ruse_tui::input::ex::GlobalPayload::Normal { bang: false, keys: " A;".to_string() }
            );
        }
        other => panic!("expected Global, got {other:?}"),
    }
}

#[test]
fn misc_commands_parse() {
    assert_eq!(parse_ex("  w  "), Ex::Save);
    assert_eq!(parse_ex("trace save out.json"), Ex::SaveTrace("out.json".to_string()));
    assert_eq!(parse_ex("rn bar"), Ex::Rename("bar".to_string()));
    assert!(matches!(parse_ex("rename a b"), Ex::Unknown(_)));
    assert_eq!(parse_ex("set tabstop = 4"), Ex::SetOption(EditorOption::ShiftWidth(4)));
    assert!(matches!(parse_ex("set sw=x"), Ex::Unknown(_)));
    assert_eq!(parse_ex("lmap  a   b "), Ex::Lmap { lhs: 'a', rhs: 'b' });
    assert_eq!(parse_ex("5,5>"), Ex::Shift { range: SubRange::Lines(5, 5), left: false, levels: 1 });
    assert!(matches!(parse_ex("1,2,3d"), Ex::Unknown(_)));
    assert_eq!(parse_ex("b +7"), Ex::Buffer(BufTarget::Number(7)));
    assert_eq!(
        parse_ex("$r !ls"),
        Ex::Read { addr: LineAddr::Last, source: ReadSource::Command("ls".to_string()) }
    );
    match parse_ex("sort! /k/ r") {
        Ex::Sort(_, s) => {
            // The flags are what precedes the pattern: none here.
            assert!(s.reverse && !s.use_match);
            assert_eq!(s.pattern.as_deref(), Some("k/ r"));
        }
        other => panic!("expected Sort, got {other:?}"),
    }
}

#[test]
fn reuse_last_search_leaves_other_commands_alone() {
    let mut ex = parse_ex("q");
    reuse_last_search(&mut ex, Some("foo"));
    assert_eq!(ex, Ex::Quit);
}

fn sub(line: &str) -> SubSpec {
    match parse_ex(line) {
        Ex::Substitute(s) => s,
        other => panic!("expected Substitute, got {other:?}"),
    }
}

fn glob(line: &str) -> GlobalSpec {
    match parse_ex(line) {
        Ex::Global(g) => g,
        other => panic!("expected Global, got {other:?}"),
    }
}

#[test]
fn plain_substitute_current_line() {
    let s = sub("s/foo/bar/");
    assert_eq!(s.range, SubRange::CurrentLine);
    assert_eq!(s.pattern, "foo");
    assert_eq!(s.replacement, "bar");
    assert!(!s.global && s.ignore_case.is_none() && !s.confirm);
}

#[test]
fn whole_file_global() {
    let s = sub("%s/a/b/g");
    assert_eq!(s.range, SubRange::WholeFile);
    assert!(s.global);
}

#[test]
fn line_range_and_flags() {
    let s = sub("2,5s/a/b/gi");
    assert_eq!(s.range, SubRange::Lines(2, 5));
    assert!(s.global);
    assert_eq!(s.ignore_case, Some(true));
}

#[test]
fn capital_i_forces_case_sensitive_and_c_is_confirm() {
    let s = sub("s/a/b/Ic");
    assert_eq!(s.ignore_case, Some(false));
    assert!(s.confirm);
}

#[test]
fn escaped_delimiter_stays_in_the_pattern() {
    let s = sub("s/a\\/b/c/");
    assert_eq!(s.pattern, "a\\/b");
    assert_eq!(s.replacement, "c");
}

#[test]
fn global_delete_defaults_to_whole_file() {
    let g = glob("g/foo/d");
    assert_eq!(g.range, SubRange::WholeFile);
    assert_eq!(g.pattern, "foo");
    assert!(!g.negate);
    assert_eq!(g.cmd, GlobalPayload::Core(GlobalCmd::Delete));
}

#[test]
fn bang_and_v_negate() {
    assert!(glob("g!/foo/d").negate);
    assert!(glob("v/foo/d").negate);
    assert!(glob("vglobal/foo/d").negate);
}

#[test]
fn global_substitute_subcommand() {
    let g = glob("g/foo/s/x/y/g");
    assert_eq!(g.pattern, "foo");
    assert_eq!(
        g.cmd,
        GlobalPayload::Core(GlobalCmd::Substitute {
            pattern: "x".into(),
            replacement: "y".into(),
            flags: SubFlags {
                global: true,
                ignore_case: None
            },
        })
    );
}

#[test]
fn ranged_global() {
    let g = glob("2,5g/foo/d");
    assert_eq!(g.range, SubRange::Lines(2, 5));
}

#[test]
fn global_normal_payload_parses() {
    let g = glob("g/foo/normal A;");
    assert_eq!(g.pattern, "foo");
    assert!(!g.negate);
    assert_eq!(
        g.cmd,
        GlobalPayload::Normal {
            bang: false,
            keys: "A;".into(),
        }
    );
    // Only the FIRST space delimits the payload — further spaces are part of the verbatim keys.
    assert_eq!(
        glob("g/foo/normal f x").cmd,
        GlobalPayload::Normal {
            bang: false,
            keys: "f x".into(),
        }
    );
    // Vim's `norm`/`norma` abbreviations resolve the same, and `<>` key-notation stays verbatim.
    assert_eq!(
        glob("g/foo/norm Ihi<Esc>").cmd,
        GlobalPayload::Normal {
            bang: false,
            keys: "Ihi<Esc>".into(),
        }
    );
}

#[test]
fn global_normal_negation_and_bang() {
    // `:v/` and `:g!/` mark the NON-matching lines; the payload `!` (ignore mappings) is parsed.
    assert!(glob("v/foo/normal A;").negate);
    assert!(glob("g!/foo/normal A;").negate);
    assert_eq!(
        glob("g/foo/normal! A;").cmd,
        GlobalPayload::Normal {
            bang: true,
            keys: "A;".into(),
        }
    );
}
