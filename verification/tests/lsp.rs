use ruse_tui::lsp::codec::{decimal_chars, frame_message, header_line, HeaderLine};
use ruse_tui::lsp::model::{byte_to_lsp_pos, counts, lsp_pos_to_byte, Diag, Severity};
use ruse_tui::lsp::protocol::{
    to_diags, LspDiagnostic, LspPosition, LspRange, PublishDiagnosticsParams,
};
use ruse_tui::lsp::snippet::expand;
use ruse_tui::lsp::{path_to_uri, server_for_ext};

#[test]
fn byte_pos_round_trips_with_lsp_pos() {
    let b = "let x = é;\n한 z\n😀!".as_bytes();
    for &byte in &[0usize, 3, 8, 10, 11, 15] {
        if b.get(byte).is_none_or(|&c| c & 0xC0 != 0x80) {
            let (l, c) = byte_to_lsp_pos(b, byte);
            assert_eq!(lsp_pos_to_byte(b, l, c), byte, "round-trip at byte {byte}");
        }
    }
}

#[test]
fn pos_maps_ascii_and_multibyte_and_astral() {
    let b = "let x = é;\n😀 next".as_bytes();
    assert_eq!(lsp_pos_to_byte(b, 0, 0), 0);
    assert_eq!(lsp_pos_to_byte(b, 0, 8), 8);
    assert_eq!(lsp_pos_to_byte(b, 0, 9), 10);
    let nl = b.iter().position(|&c| c == b'\n').unwrap();
    assert_eq!(lsp_pos_to_byte(b, 1, 0), nl + 1);
    assert_eq!(lsp_pos_to_byte(b, 1, 2), nl + 1 + 4);
}

#[test]
fn pos_clamps_past_line_end_and_eof() {
    let b = b"ab\ncd";
    assert_eq!(lsp_pos_to_byte(b, 0, 99), 2);
    assert_eq!(lsp_pos_to_byte(b, 5, 0), b.len());
}

#[test]
fn counts_split_by_severity() {
    let d = |sev| Diag {
        start: 0,
        end: 1,
        severity: sev,
        message: String::new(),
    };
    let v = vec![d(Severity::Error), d(Severity::Warning), d(Severity::Error)];
    assert_eq!(counts(&v), (2, 1));
}

#[test]
fn byte_position_counts_lines_and_utf16_units() {
    let b = "a\n😀é".as_bytes();
    assert_eq!(byte_to_lsp_pos(b, 0), (0, 0));
    assert_eq!(byte_to_lsp_pos(b, 2), (1, 0));
    assert_eq!(byte_to_lsp_pos(b, 6), (1, 2));
    assert_eq!(byte_to_lsp_pos(b, 8), (1, 3));
    assert_eq!(byte_to_lsp_pos(b, 99), (1, 3));
}

#[test]
fn invalid_utf8_tail_stops_at_the_line_start() {
    let b = [b'a', b'\n', 0xFF, b'x'];
    assert_eq!(lsp_pos_to_byte(&b, 1, 1), 2);
}

#[test]
fn severity_maps_the_lsp_scale() {
    assert_eq!(Severity::from_lsp(Some(1)), Severity::Error);
    assert_eq!(Severity::from_lsp(Some(2)), Severity::Warning);
    assert_eq!(Severity::from_lsp(Some(3)), Severity::Info);
    assert_eq!(Severity::from_lsp(Some(4)), Severity::Hint);
    assert_eq!(Severity::from_lsp(Some(9)), Severity::Error);
    assert_eq!(Severity::from_lsp(None), Severity::Error);
}

fn pos(line: u32, character: u32) -> LspPosition {
    LspPosition { line, character }
}

#[test]
fn diagnostics_become_byte_ranges() {
    let bytes = b"fn main() {\n    let x = 1;\n}\n";
    let params = PublishDiagnosticsParams {
        uri: "file:///tmp/a.rs".to_string(),
        diagnostics: vec![
            LspDiagnostic {
                range: LspRange {
                    start: pos(1, 8),
                    end: pos(1, 9),
                },
                severity: Some(2),
                message: "unused".to_string(),
            },
            LspDiagnostic {
                range: LspRange {
                    start: pos(1, 4),
                    end: pos(0, 0),
                },
                severity: None,
                message: "backwards".to_string(),
            },
        ],
    };
    let d = to_diags(bytes, &params);
    assert_eq!(d.len(), 2);
    assert_eq!((d[0].start, d[0].end), (20, 21));
    assert_eq!(d[0].severity, Severity::Warning);
    assert_eq!(d[0].message, "unused");
    assert_eq!((d[1].start, d[1].end), (16, 16), "end never before start");
    assert_eq!(d[1].severity, Severity::Error);
}

#[test]
fn server_for_ext_maps_languages_and_dedups_by_key() {
    let key_lang = |ext: &str| server_for_ext(ext).map(|s| (s.key, s.lang));
    assert_eq!(key_lang("rs"), Some(("rust-analyzer", "rust")));
    assert_eq!(key_lang("py"), Some(("pyright", "python")));
    assert_eq!(key_lang("go"), Some(("gopls", "go")));
    assert_eq!(
        key_lang("ts"),
        Some(("typescript-language-server", "typescript"))
    );
    assert_eq!(
        key_lang("jsx"),
        Some(("typescript-language-server", "javascript"))
    );
    assert_eq!(key_lang("c"), Some(("clangd", "c")));
    assert_eq!(key_lang("hpp"), Some(("clangd", "cpp")));
    assert_eq!(key_lang("txt"), None);
    assert_eq!(key_lang(""), None);
}

#[test]
fn server_launch_commands_carry_their_arguments() {
    let py = server_for_ext("py").unwrap();
    assert_eq!(py.bin, "pyright-langserver");
    assert_eq!(py.args, vec!["--stdio"]);
    assert!(server_for_ext("rs").unwrap().args.is_empty());
}

#[test]
fn uri_is_file_scheme_plus_path() {
    assert_eq!(path_to_uri("/tmp/x.rs"), "file:///tmp/x.rs");
}

fn ex(body: &str) -> (String, usize) {
    let e = expand(body);
    (e.text, e.cursor)
}

#[test]
fn final_tabstop_between_parens() {
    assert_eq!(ex("println!($0)"), ("println!()".to_string(), 9));
}

#[test]
fn numbered_tabstop_with_default_renders_default_cursor_at_start() {
    assert_eq!(ex("${1:name}"), ("name".to_string(), 0));
}

#[test]
fn lowest_positive_tabstop_wins_over_zero() {
    let (text, cur) = ex("if $1 {\n\t$0\n}");
    assert_eq!(text, "if  {\n\t\n}");
    assert_eq!(cur, 3);
}

#[test]
fn choice_uses_first_option() {
    assert_eq!(ex("${1|pub,pub(crate)|} fn"), ("pub fn".to_string(), 0));
}

#[test]
fn escapes_are_literal() {
    assert_eq!(
        ex("cost: \\$5 \\} done"),
        ("cost: $5 } done".to_string(), 15)
    );
}

#[test]
fn no_tabstop_places_cursor_at_end() {
    assert_eq!(ex("plain text"), ("plain text".to_string(), 10));
}

#[test]
fn nested_default_flattens() {
    assert_eq!(ex("${1:${2:x}}"), ("x".to_string(), 0));
}

#[test]
fn unresolved_variable_renders_default_or_empty() {
    assert_eq!(ex("$TM_FILENAME/x"), ("/x".to_string(), 2));
    assert_eq!(ex("${TM_SELECTED_TEXT:def}"), ("def".to_string(), 3));
}

#[test]
fn cursor_is_a_byte_offset_after_multibyte_text() {
    assert_eq!(ex("é$1x"), ("éx".to_string(), 2));
}

#[test]
fn lone_dollar_and_trailing_backslash_stay_literal() {
    assert_eq!(ex("a $ b\\"), ("a $ b\\".to_string(), 6));
    assert_eq!(ex("\\q"), ("\\q".to_string(), 2));
}

#[test]
fn equal_tabstop_numbers_keep_the_first() {
    assert_eq!(ex("a$2b$1c$1d"), ("abcd".to_string(), 2));
}

#[test]
fn frames_carry_their_length() {
    assert_eq!(frame_message(b"{}"), b"Content-Length: 2\r\n\r\n{}".to_vec());
    assert_eq!(frame_message(b""), b"Content-Length: 0\r\n\r\n".to_vec());
    assert_eq!(decimal_chars(1234567890), "1234567890".chars().collect::<Vec<_>>());
    assert_eq!(header_line("Content-Length: 12\r\n"), HeaderLine::Length(Some(12)));
    assert_eq!(header_line("Content-Length:7"), HeaderLine::Length(Some(7)));
    assert_eq!(header_line("Content-Length: x\r\n"), HeaderLine::Length(None));
    assert_eq!(header_line("\r\n"), HeaderLine::End);
    assert_eq!(header_line(""), HeaderLine::End);
    assert_eq!(header_line("Content-Type: text\r\n"), HeaderLine::Other);
}

#[test]
fn the_cursor_is_always_a_character_boundary() {
    for body in [
        "fn ${1:名前}(${2:引数}) {\n\t$0\n}",
        "é$1ü",
        "${1|α,β|} ${2:ж}",
        "$TM_FILENAME ∞ ${3}",
        "plain ünïcödé",
        "\\$ ${0}",
    ] {
        let e = expand(body);
        assert!(e.text.is_char_boundary(e.cursor), "{body:?} -> {e:?}");
    }
    assert_eq!(expand("é$1ü").cursor, 2);
    assert_eq!(expand("${1|α,β|} ${2:ж}").cursor, 0);
}

#[test]
fn positions_land_inside_their_line() {
    let b = "ab\nc😀d\n".as_bytes();
    // Line 1 starts at 3 and its `\n` is at 9.
    assert_eq!(lsp_pos_to_byte(b, 1, 0), 3);
    assert_eq!(lsp_pos_to_byte(b, 1, 3), 8);
    assert_eq!(lsp_pos_to_byte(b, 1, 1), 4);
    // A column inside the surrogate pair of 😀 ends after it.
    assert_eq!(lsp_pos_to_byte(b, 1, 2), 8);
    assert_eq!(lsp_pos_to_byte(b, 1, 99), 9);
    // Line 2 is the empty line after the last `\n`; line 3 does not exist.
    assert_eq!(lsp_pos_to_byte(b, 2, 5), 10);
    assert_eq!(lsp_pos_to_byte(b, 3, 0), b.len());
    assert_eq!(lsp_pos_to_byte(b, u32::MAX, u32::MAX), b.len());
    for line in 0..4 {
        for ch in 0..6 {
            let r = lsp_pos_to_byte(b, line, ch);
            assert!(r <= b.len());
            assert!(std::str::from_utf8(&b[..r]).is_ok());
        }
    }
}

#[test]
fn a_plain_body_expands_to_itself() {
    for body in ["", "plain text", "fn main() {}", "名前 → 😀"] {
        assert_eq!(ex(body), (body.to_string(), body.len()));
    }
}
