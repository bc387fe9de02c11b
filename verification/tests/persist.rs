use ruse_tui::persist::encoding::{Eol, FileFormat};
use ruse_tui::persist::journal::{crc32, frame, journal_path, journal_suffix, replay_bytes};
use ruse_tui::persist::atomic::{temp_path, temp_suffix};
use ruse_tui::recover::{self, recovery_outcome, Snapshot};
use ruse_tui::shell::ShellError;
use ruse_tui::persist::{assess_recovery, Recovery};

const BOM: [u8; 3] = [0xEF, 0xBB, 0xBF];

#[test]
fn detects_and_round_trips_crlf() {
    let raw = b"one\r\ntwo\r\nthree";
    let fmt = FileFormat::detect(raw);
    assert_eq!(fmt.eol, Eol::Crlf);
    assert!(!fmt.bom);
    let buf = fmt.to_buffer(raw);
    assert_eq!(buf, b"one\ntwo\nthree");
    assert_eq!(fmt.to_disk(&buf), raw);
}

#[test]
fn detects_and_round_trips_bom_lf() {
    let mut raw = BOM.to_vec();
    raw.extend_from_slice(b"hello\nworld\n");
    let fmt = FileFormat::detect(&raw);
    assert_eq!(fmt.eol, Eol::Lf);
    assert!(fmt.bom);
    let buf = fmt.to_buffer(&raw);
    assert_eq!(buf, b"hello\nworld\n");
    assert_eq!(fmt.to_disk(&buf), raw);
}

#[test]
fn edited_crlf_file_saves_all_lines_crlf() {
    let fmt = FileFormat::detect(b"a\r\nb\r\n");
    let edited_buffer = b"a\nb\nc\n";
    assert_eq!(fmt.to_disk(edited_buffer), b"a\r\nb\r\nc\r\n");
}

#[test]
fn lone_cr_data_is_preserved_not_treated_as_eol() {
    let raw = b"key\rvalue\nnext\n";
    let fmt = FileFormat::detect(raw);
    assert_eq!(fmt.eol, Eol::Lf);
    assert_eq!(fmt.to_buffer(raw), raw);
}

#[test]
fn empty_file_is_lf_no_bom() {
    let fmt = FileFormat::detect(b"");
    assert_eq!(
        fmt,
        FileFormat {
            eol: Eol::Lf,
            bom: false
        }
    );
    assert_eq!(fmt.to_disk(b""), b"");
}

#[test]
fn majority_decides_mixed_line_endings() {
    // Two CRLF against one bare LF: CRLF wins; the reverse is LF.
    assert_eq!(FileFormat::detect(b"a\r\nb\r\nc\n").eol, Eol::Crlf);
    assert_eq!(FileFormat::detect(b"a\r\nb\nc\n").eol, Eol::Lf);
    // A tie is LF.
    assert_eq!(FileFormat::detect(b"a\r\nb\n").eol, Eol::Lf);
}

#[test]
fn load_after_save_gives_back_any_buffer() {
    let fmt = FileFormat {
        eol: Eol::Crlf,
        bom: true,
    };
    let buffer = b"x\r\ny\n\rz\r";
    let disk = fmt.to_disk(buffer);
    assert_eq!(&disk[..3], &BOM);
    assert_eq!(fmt.to_buffer(&disk), buffer);
}

#[test]
fn bom_is_only_stripped_when_recorded() {
    let mut raw = BOM.to_vec();
    raw.extend_from_slice(b"x\n");
    let plain = FileFormat {
        eol: Eol::Lf,
        bom: false,
    };
    assert_eq!(plain.to_buffer(&raw), raw);
}

#[test]
fn replays_last_of_several_records() {
    let mut j = frame(b"first");
    j.extend(frame(b"second"));
    j.extend(frame(b"third"));
    assert_eq!(replay_bytes(&j).as_deref(), Some(&b"third"[..]));
}

#[test]
fn torn_payload_tail_is_discarded() {
    let mut j = frame(b"good record");
    let torn = frame(b"this one was mid-write when the crash hit");
    j.extend_from_slice(&torn[..torn.len() - 10]);
    assert_eq!(replay_bytes(&j).as_deref(), Some(&b"good record"[..]));
}

#[test]
fn torn_header_tail_is_discarded() {
    let mut j = frame(b"complete");
    j.extend_from_slice(&[0x03, 0x00]);
    assert_eq!(replay_bytes(&j).as_deref(), Some(&b"complete"[..]));
}

#[test]
fn corrupt_crc_stops_replay() {
    let mut j = frame(b"ok");
    let mut bad = frame(b"payload");
    let flip = bad.len() - 1;
    bad[flip] ^= 0xFF;
    j.extend(bad);
    assert_eq!(replay_bytes(&j).as_deref(), Some(&b"ok"[..]));
}

#[test]
fn empty_or_garbage_journal_yields_nothing() {
    assert_eq!(replay_bytes(b""), None);
    assert_eq!(replay_bytes(&[0xFF, 0x00, 0x12]), None);
}

#[test]
fn crc32_matches_known_vector() {
    assert_eq!(crc32(b"123456789"), 0xCBF4_3926);
}

#[test]
fn frame_layout_is_length_crc_payload() {
    let f = frame(b"abc");
    assert_eq!(&f[..4], &[3, 0, 0, 0]);
    assert_eq!(&f[4..8], &crc32(b"abc").to_le_bytes());
    assert_eq!(&f[8..], b"abc");
    assert_eq!(crc32(b""), 0);
}

#[test]
fn empty_payload_record_is_recovered() {
    let mut j = frame(b"before");
    j.extend(frame(b""));
    assert_eq!(replay_bytes(&j).as_deref(), Some(&b""[..]));
}

#[test]
fn no_journal_means_no_recovery() {
    assert_eq!(assess_recovery(b"disk", None), Recovery::Nothing);
}

#[test]
fn journal_matching_disk_is_not_offered() {
    assert_eq!(assess_recovery(b"same", Some(b"same")), Recovery::Nothing);
}

#[test]
fn diverging_unsaved_work_is_offered() {
    assert_eq!(
        assess_recovery(b"on disk", Some(b"unsaved edits")),
        Recovery::Available(b"unsaved edits".to_vec())
    );
}

#[test]
fn journals_sit_beside_their_documents() {
    assert_eq!(journal_path(None), ".ruse-journal");
    assert_eq!(journal_path(Some("dir/note.txt")), "dir/note.txt.ruse-journal");
    assert_eq!(journal_path(Some("note.txt")), "note.txt.ruse-journal");
    assert_eq!(journal_path(Some("/a/b/")), "/a/b.ruse-journal");
}

#[test]
fn shell_errors_read_as_status_messages() {
    assert_eq!(
        ShellError::Spawn("no such file".to_string()).message(),
        "E485: cannot run shell: no such file"
    );
    assert_eq!(
        ShellError::Wait("broken pipe".to_string()).message(),
        "E485: shell wait failed: broken pipe"
    );
    assert_eq!(
        ShellError::Unsupported.message(),
        "shell commands are not supported on this platform"
    );
}

#[test]
fn temp_path_is_a_sibling_of_the_target() {
    assert_eq!(temp_path("dir/a.txt"), "dir/a.txt.ruse-tmp");
    assert_eq!(temp_path("a.txt"), "a.txt.ruse-tmp");
    assert_eq!(temp_path("/x/y/notes.md"), "/x/y/notes.md.ruse-tmp");
}

#[test]
fn clean_buffer_appends_nothing() {
    // An unmodified buffer must not write a recovery frame at all.
    let mut s = Snapshot::new();
    s.update(None, b"x", false);
    assert!(s.pending_record().is_none());
}

#[test]
fn a_modified_buffer_is_the_pending_record() {
    let mut s = Snapshot::new();
    s.update(Some("dir/note.txt"), b"unsaved work", true);
    assert_eq!(s.pending_record(), Some(&b"unsaved work"[..]));
    assert_eq!(
        recovery_outcome(s.path.as_deref(), Ok(())),
        recover::Recovery::Written("dir/note.txt.ruse-journal".to_string())
    );
    assert_eq!(
        recovery_outcome(None, Ok(())),
        recover::Recovery::Written(".ruse-journal".to_string())
    );
    assert_eq!(
        recovery_outcome(Some("a"), Err("disk full".to_string())),
        recover::Recovery::Failed("disk full".to_string())
    );
    s.update(None, b"", false);
    assert!(s.pending_record().is_none() && s.path.is_none() && s.bytes.is_empty());
}

#[test]
fn one_changed_payload_byte_stops_replay_at_that_frame() {
    let good = frame(b"kept");
    let bad = frame(b"changed in transit");
    let after = frame(b"never reached");
    for i in 8..bad.len() {
        let mut broken = bad.clone();
        broken[i] ^= 0x01;
        let mut j = good.clone();
        j.extend(&broken);
        j.extend(&after);
        assert_eq!(replay_bytes(&j).as_deref(), Some(&b"kept"[..]));
    }
    let mut broken = bad.clone();
    broken[8] = b'C';
    broken.extend(&after);
    assert_eq!(replay_bytes(&broken), None);
}

#[test]
fn plain_paths_get_their_siblings_by_appending_a_suffix() {
    for p in ["note", "/note", "a/b/.hidden", "/x/y.z/w.txt", "dir/..note"] {
        assert_eq!(journal_path(Some(p)), format!("{p}{}", journal_suffix()));
        assert_eq!(temp_path(p), format!("{p}{}", temp_suffix()));
    }
    // Paths without a last component keep what std makes of them.
    assert_eq!(journal_path(Some("/")), "/.ruse-journal");
    assert_eq!(journal_path(Some("a/..")), "a/../.ruse-journal");
}
