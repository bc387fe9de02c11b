use ruse_tui::line_index::{LineIndex, Revision};

/// The row of `byte` by a scan from byte 0: the number of `\n` before it.
fn scan_line_of(bytes: &[u8], byte: usize) -> usize {
    bytes[..byte.min(bytes.len())].iter().filter(|&&b| b == b'\n').count()
}

/// The start of `line` by a scan from byte 0, clamped to the end past the last line.
fn scan_nth_line_start(bytes: &[u8], line: usize) -> usize {
    if line == 0 {
        return 0;
    }
    let mut seen = 0;
    for (i, &b) in bytes.iter().enumerate() {
        if b == b'\n' {
            seen += 1;
            if seen == line {
                return i + 1;
            }
        }
    }
    bytes.len()
}

#[test]
fn matches_the_shared_pos_helpers() {
    // The index must agree with the O(n) scans at every byte / line — it is a cache of the
    // same facts, so a differential check over a multi-line buffer pins the equivalence.
    let bytes = b"fn a() {}\n\nlet x = 1;\nend\n";
    let mut idx = LineIndex::default();
    idx.refresh(Revision(0), bytes);
    for byte in 0..=bytes.len() {
        assert_eq!(idx.line_of(byte), scan_line_of(bytes, byte), "line_of @ {byte}");
    }
    let lines = bytes.iter().filter(|&&b| b == b'\n').count();
    for line in 0..=lines + 2 {
        assert_eq!(
            idx.nth_line_start(line),
            scan_nth_line_start(bytes, line),
            "nth_line_start @ {line}"
        );
    }
}

#[test]
fn reuses_the_cache_on_unchanged_revision() {
    let mut idx = LineIndex::default();
    idx.refresh(Revision(0), b"a\nb\nc");
    // Same revision, different bytes → stale cache retained (proves no rebuild).
    idx.refresh(Revision(0), b"totally different and much longer\n\n\n");
    assert_eq!(idx.nth_line_start(1), 2, "unchanged revision keeps the old index");
}

#[test]
fn a_new_revision_rebuilds() {
    let mut idx = LineIndex::new();
    idx.refresh(Revision(0), b"a\nb\nc");
    idx.refresh(Revision(1), b"\n\n\n");
    assert_eq!(idx.nth_line_start(1), 1);
    assert_eq!(idx.nth_line_start(3), 3);
    assert_eq!(idx.nth_line_start(4), 3);
    assert_eq!(idx.line_of(100), 3);
}

#[test]
fn an_unbuilt_index_is_the_empty_buffer() {
    let idx = LineIndex::default();
    assert_eq!(idx.line_of(0), 0);
    assert_eq!(idx.line_of(7), 0);
    assert_eq!(idx.nth_line_start(0), 0);
    assert_eq!(idx.nth_line_start(3), 0);
}

#[test]
fn each_line_start_lies_on_its_line() {
    let bytes = b"one\ntwo\n\nfour";
    let mut idx = LineIndex::new();
    idx.refresh(Revision(7), bytes);
    for line in 0..4 {
        assert_eq!(idx.line_of(idx.nth_line_start(line)), line);
    }
    assert_eq!(idx.nth_line_start(3), 9);
    assert_eq!(idx.line_of(8), 2);
    assert_eq!(idx.line_of(3), 0);
    assert_eq!(idx.line_of(4), 1);
}
