use ruse_tui::screen::{cluster_width, Cell, Color, Content, Screen};

fn cluster(cell: &Cell) -> Option<&str> {
    match &cell.content {
        Content::Cluster(s) => Some(s.as_str()),
        _ => None,
    }
}

#[test]
fn a_zwj_emoji_is_one_cell_pair_not_three_glyphs() {
    let fam = "👨\u{200D}👩\u{200D}👧";
    let mut s = Screen::new(6, 1);
    let next = s.put(0, 0, fam, Color::Reset, false);
    assert_eq!(
        next, 2,
        "the whole family emoji is ONE width-2 cluster, not 3 wide glyphs"
    );
    assert_eq!(
        cluster(&s.cell(0, 0)),
        Some(fam),
        "the cell holds the entire cluster"
    );
    assert_eq!(s.cell(0, 1).content, Content::Continuation);
}

#[test]
fn a_combining_sequence_stays_in_one_cell_with_its_accent() {
    let mut s = Screen::new(4, 1);
    let next = s.put(0, 0, "e\u{0301}", Color::Reset, false);
    assert_eq!(next, 1, "base + combining acute is one 1-wide cluster");
    assert_eq!(
        cluster(&s.cell(0, 0)),
        Some("e\u{0301}"),
        "the accent is kept, not dropped"
    );
}

#[test]
fn wide_cjk_takes_two_cells() {
    let mut s = Screen::new(6, 1);
    assert_eq!(s.put(0, 0, "宽", Color::Reset, false), 2);
    assert_eq!(s.cell(0, 1).content, Content::Continuation);
}

#[test]
fn diff_emits_only_changed_runs_and_nothing_when_equal() {
    let prev = Screen::new(10, 1);
    let mut cur = Screen::new(10, 1);
    cur.put(0, 3, "X", Color::Reset, false);
    let d = cur.diff(&prev);
    assert_eq!(d.len(), 1);
    assert_eq!((d[0].0, d[0].1), (0, 3));
    assert_eq!(cluster(&d[0].2[0]), Some("X"));
    // Repainting the same frame yields no output — no full redraw.
    let mut same = Screen::new(10, 1);
    same.put(0, 3, "X", Color::Reset, false);
    assert!(same.diff(&cur).is_empty());
}

#[test]
fn a_changed_wide_glyph_run_never_starts_on_the_continuation() {
    let mut prev = Screen::new(6, 1);
    prev.put(0, 0, "a", Color::Reset, false);
    prev.put(0, 1, "宽", Color::Reset, false);
    let mut cur = Screen::new(6, 1);
    cur.put(0, 0, "a", Color::Reset, false);
    cur.put(0, 1, "广", Color::Reset, false);
    let d = cur.diff(&prev);
    assert_eq!(
        d[0].1, 1,
        "run starts at the glyph, not its continuation at col 2"
    );
    assert_eq!(cluster(&d[0].2[0]), Some("广"));
}

#[test]
fn a_size_change_repaints_everything() {
    let prev = Screen::new(4, 1);
    let mut cur = Screen::new(6, 1);
    cur.put(0, 0, "h", Color::Reset, false);
    assert!(
        !cur.diff(&prev).is_empty(),
        "a resize forces a full repaint"
    );
}

#[test]
fn cluster_widths() {
    assert_eq!(cluster_width(""), 0);
    assert_eq!(cluster_width("a"), 1);
    assert_eq!(cluster_width("宽"), 2);
    // A lone combining mark still takes a column.
    assert_eq!(cluster_width("\u{0301}"), 1);
    // A control character too.
    assert_eq!(cluster_width("\u{7}"), 1);
}

#[test]
fn a_wide_cluster_at_the_edge_leaves_a_blank() {
    let mut s = Screen::new(3, 1);
    assert_eq!(s.put(0, 2, "宽", Color::Red, true), 3);
    assert_eq!(
        s.cell(0, 2),
        Cell { content: Content::Blank, fg: Color::Red, reverse: true }
    );
    // Off the screen only the column moves.
    assert_eq!(s.put(5, 0, "宽", Color::Reset, false), 2);
    assert_eq!(s.put(0, 65535, "a", Color::Reset, false), 65535);
}

#[test]
fn put_str_stops_at_the_right_edge() {
    let mut s = Screen::new(4, 1);
    assert_eq!(s.put_str(0, 1, "abcdef", Color::Reset, false), 4);
    assert_eq!(cluster(&s.cell(0, 3)), Some("c"));
    assert_eq!(s.cell(0, 0).content, Content::Blank);
}

#[test]
fn diff_widens_and_groups_runs() {
    let prev = Screen::new(5, 2);
    let mut cur = Screen::new(5, 2);
    cur.put_str(0, 1, "ab", Color::Reset, false);
    cur.put(1, 4, "z", Color::Green, false);
    let d = cur.diff(&prev);
    assert_eq!(d.len(), 2);
    assert_eq!((d[0].0, d[0].1, d[0].2.len()), (0, 1, 2));
    assert_eq!((d[1].0, d[1].1, d[1].2.len()), (1, 4, 1));
    assert_eq!(d[1].2[0].fg, Color::Green);
}

/// What the terminal shows at `(row, col)` after painting `runs` over `prev`.
fn shown_after(prev: &Screen, runs: &[(u16, u16, Vec<Cell>)], row: u16, col: u16) -> Cell {
    let mut shown = prev.cell(row, col);
    for (r, start, cells) in runs {
        if *r == row && *start <= col && ((col - start) as usize) < cells.len() {
            shown = cells[(col - start) as usize].clone();
        }
    }
    shown
}

#[test]
fn painting_the_diff_over_the_old_screen_shows_the_new_one() {
    let mut prev = Screen::new(8, 3);
    prev.put_str(0, 0, "hello", Color::Reset, false);
    prev.put_str(2, 1, "日本", Color::Green, false);
    let mut next = Screen::new(8, 3);
    next.put_str(0, 0, "help!", Color::Reset, false);
    next.put_str(1, 3, "xy", Color::Red, true);
    next.put_str(2, 1, "日x", Color::Green, false);
    let runs = next.diff(&prev);
    for row in 0..3 {
        for col in 0..8 {
            assert_eq!(shown_after(&prev, &runs, row, col), next.cell(row, col), "({row}, {col})");
        }
    }
    // A screen of another size is repainted whole, from a blank terminal.
    let small = Screen::new(4, 2);
    let runs = next.diff(&small);
    let blank = Screen::new(8, 3);
    for row in 0..3 {
        for col in 0..8 {
            assert_eq!(shown_after(&blank, &runs, row, col), next.cell(row, col));
        }
    }
}
