use ruse_tui::org::{decorations, Span, VirtLine};

fn spans(src: &str) -> Vec<Span> {
    decorations(src.as_bytes(), &(0..src.len()), 12).0
}
fn virt(src: &str) -> Vec<VirtLine> {
    decorations(src.as_bytes(), &(0..src.len()), 12).1
}

#[test]
fn heading_conceals_stars_and_faces_title() {
    let s = spans("** Sub heading\n");
    assert!(
        s.iter().any(|x| x.start == 0 && x.end == 3 && x.conceal),
        "the `** ` prefix is concealed; got {s:?}",
    );
    assert!(
        s.iter()
            .any(|x| x.start == 3 && !x.conceal && x.face == Some("markup.heading")),
        "title is faced bold; got {s:?}",
    );
}

#[test]
fn emphasis_conceals_markers_and_faces_content() {
    let s = spans("a *bold* and /it/ and ~code~ here\n");
    assert!(s.iter().any(|x| x.start == 2 && x.end == 3 && x.conceal));
    assert!(s
        .iter()
        .any(|x| x.start == 3 && x.end == 7 && x.face == Some("markup.strong") && !x.conceal));
    assert!(s.iter().any(|x| x.start == 7 && x.end == 8 && x.conceal));
    assert!(s.iter().any(|x| !x.conceal && x.face == Some("markup.emphasis")));
    assert!(s.iter().any(|x| !x.conceal && x.face == Some("markup.code")));
}

#[test]
fn emphasis_ignores_bare_operators() {
    let s = spans("2 * 3 / 4\n");
    assert!(
        !s.iter().any(|x| x.conceal),
        "bare operators are not emphasis; got {s:?}"
    );
}

#[test]
fn link_shows_label_and_hides_target() {
    let s = spans("see [[https://x.io][the site]] now\n");
    assert!(
        s.iter()
            .any(|x| !x.conceal && x.face == Some("markup.link")),
        "label is a faced link; got {s:?}",
    );
    assert!(
        s.iter().filter(|x| x.conceal).count() >= 2,
        "target + brackets concealed"
    );
}

#[test]
fn image_link_reserves_a_block_and_conceals_markup() {
    let src = "before\n[[file:/tmp/pic.png]]\nafter\n";
    let v = virt(src);
    assert_eq!(v.len(), 1, "one image block; got {v:?}");
    assert_eq!(v[0].after_line, 1, "block sits after the link's line");
    assert_eq!(v[0].height, 12, "reserves the graphics-height rows");
    assert_eq!(
        v[0].path.as_deref(),
        Some("/tmp/pic.png"),
        "file: prefix stripped"
    );
    assert_eq!(v[0].label, "pic.png", "label is the basename");
    let base = "before\n".len();
    let s = spans(src);
    assert!(
        s.iter().any(|x| x.conceal && x.start == base),
        "link markup concealed; got {s:?}",
    );
}

#[test]
fn described_link_and_non_image_target_are_not_images() {
    assert!(
        virt("[[file:/tmp/pic.png][a pic]]\n").is_empty(),
        "described link is not inlined"
    );
    assert!(
        virt("[[https://example.com]]\n").is_empty(),
        "URL is not an image"
    );
    assert!(
        virt("[[file:notes.org]]\n").is_empty(),
        ".org is not an image"
    );
}

#[test]
fn table_dims_separators_and_pipe_delimiters() {
    let src = "| a | b |\n|---+---|\n| 1 | 2 |\n";
    let s = spans(src);
    let sep_start = "| a | b |\n".len();
    assert!(
        s.iter()
            .any(|x| x.start == sep_start && !x.conceal && x.face == Some("comment")),
        "separator row dimmed whole; got {s:?}",
    );
    assert!(
        s.iter()
            .any(|x| x.start == 0 && x.end == 1 && x.face == Some("comment")),
        "data-row `|` delimiter dimmed; got {s:?}",
    );
}

#[test]
fn list_bullet_and_checkboxes() {
    let s = spans("- one\n- [ ] todo\n- [X] done\n");
    assert!(
        s.iter().any(|x| x.conceal && x.virt == Some("\u{2022} ")),
        "bullet"
    );
    assert!(
        s.iter().any(|x| x.conceal && x.virt == Some("\u{2610} ")),
        "unchecked box"
    );
    assert!(
        s.iter().any(|x| x.conceal && x.virt == Some("\u{2611} ")),
        "checked box"
    );
}

#[test]
fn only_visible_lines_are_scanned() {
    let src = "* one\n* two\n";
    let (s, _) = decorations(src.as_bytes(), &(6..12), 12);
    assert!(s.iter().all(|x| x.start >= 6), "line 0 is outside the range; got {s:?}");
    assert_eq!(s.len(), 2);
}

#[test]
fn image_extension_is_case_insensitive_and_basename_is_the_label() {
    let v = virt("[[pics/Photo.JPEG]]\n");
    assert_eq!(v.len(), 1);
    assert_eq!(v[0].label, "Photo.JPEG");
    assert_eq!(v[0].path.as_deref(), Some("pics/Photo.JPEG"));
}

#[test]
fn invalid_utf8_source_has_no_decorations() {
    let (s, v) = decorations(&[b'*', b' ', 0xFF, b'\n'], &(0..4), 12);
    assert!(s.is_empty() && v.is_empty());
}

#[test]
fn every_span_is_a_byte_range_of_the_source() {
    let src = "* Heading\n- [X] done *bold* and /it/\n| a | b |\n|---+---|\nsee [[https://x.org][site]] and [[file:img.png]]\n  + item ~code~\n";
    let (spans, _) = decorations(src.as_bytes(), &(0..src.len()), 4);
    assert!(!spans.is_empty());
    for s in &spans {
        assert!(s.start <= s.end && s.end <= src.len(), "{s:?}");
    }
}

#[test]
fn image_blocks_are_rows_tall_below_their_line() {
    let src = "intro\n[[file:a.png]]\nmid [[./b/c.JPG]]";
    let (_, v) = decorations(src.as_bytes(), &(0..src.len()), 7);
    assert_eq!(v.len(), 2);
    assert_eq!((v[0].after_line, v[0].height), (1, 7));
    assert_eq!((v[1].after_line, v[1].height), (2, 7));
    assert_eq!(v[1].label, "c.JPG");
}

#[test]
fn an_empty_or_past_the_end_view_decorates_nothing() {
    let src = "* Heading\n[[file:a.png]]\n";
    let (s, v) = decorations(src.as_bytes(), &(0..0), 7);
    assert!(s.is_empty() && v.is_empty());
    let (s, v) = decorations(src.as_bytes(), &(src.len()..src.len() + 10), 7);
    assert!(s.is_empty() && v.is_empty());
}
