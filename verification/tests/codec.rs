use ruse_tui::lsp::codec::{frame_message, read_frame, FrameRead};

fn value(text: &str) -> serde_json::Value {
    serde_json::from_str(text).unwrap()
}

fn write_message(buf: &mut Vec<u8>, msg: &serde_json::Value) {
    let body = serde_json::to_vec(msg).unwrap();
    buf.extend_from_slice(&frame_message(&body));
}

/// Reads the frame at `pos`: its JSON value and where the next frame starts.
fn read_value(buf: &[u8], pos: usize) -> Option<(serde_json::Value, usize)> {
    match read_frame(buf, pos) {
        FrameRead::Frame { start, len } => {
            let v = serde_json::from_slice(&buf[start..start + len]).unwrap_or(serde_json::Value::Null);
            Some((v, start + len))
        }
        _ => None,
    }
}

#[test]
fn write_then_read_round_trips() {
    let msg = value(r#"{"jsonrpc":"2.0","id":1,"method":"initialize","params":{"x":42}}"#);
    let mut buf = Vec::new();
    write_message(&mut buf, &msg);
    // The header is present and the body follows a blank line.
    assert!(buf.starts_with(b"Content-Length: "));
    let (got, next) = read_value(&buf, 0).unwrap();
    assert_eq!(got, msg);
    assert_eq!(next, buf.len());
    assert_eq!(read_frame(&buf, next), FrameRead::Pending); // nothing after the one frame
}

#[test]
fn reads_two_back_to_back_frames() {
    let a = value(r#"{"a":1}"#);
    let b = value(r#"{"b":2}"#);
    let mut buf = Vec::new();
    write_message(&mut buf, &a);
    write_message(&mut buf, &b);
    let (first, next) = read_value(&buf, 0).unwrap();
    assert_eq!(first, a);
    let (second, end) = read_value(&buf, next).unwrap();
    assert_eq!(second, b);
    assert_eq!(end, buf.len());
    assert_eq!(read_frame(&buf, end), FrameRead::Pending);
}

#[test]
fn frame_positions_are_exact() {
    let buf = b"Content-Length: 2\r\n\r\n{}";
    assert_eq!(read_frame(buf, 0), FrameRead::Frame { start: 21, len: 2 });
}

#[test]
fn other_headers_are_skipped() {
    let buf = b"Content-Type: application/json\r\nContent-Length: 3\r\n\r\n[1]";
    assert_eq!(read_frame(buf, 0), FrameRead::Frame { start: 53, len: 3 });
    let buf = b"content-length: 3\r\n\r\n[1]";
    assert_eq!(read_frame(buf, 0), FrameRead::Malformed { next: 21 });
}

#[test]
fn a_header_block_without_length_is_skipped() {
    let buf = b"X: 1\r\n\r\nContent-Length: 2\r\n\r\n{}";
    assert_eq!(read_frame(buf, 0), FrameRead::Malformed { next: 8 });
    assert_eq!(read_frame(buf, 8), FrameRead::Frame { start: 29, len: 2 });
}

#[test]
fn a_later_bad_length_drops_the_earlier_one() {
    let buf = b"Content-Length: 2\r\nContent-Length: x\r\n\r\n{}";
    assert_eq!(read_frame(buf, 0), FrameRead::Malformed { next: 40 });
    let buf = b"Content-Length: x\r\nContent-Length:  7 \n\n1234567";
    assert_eq!(read_frame(buf, 0), FrameRead::Frame { start: 40, len: 7 });
}

#[test]
fn incomplete_frames_are_pending() {
    assert_eq!(read_frame(b"", 0), FrameRead::Pending);
    assert_eq!(read_frame(b"Content-Len", 0), FrameRead::Pending);
    assert_eq!(read_frame(b"Content-Length: 4\r\n", 0), FrameRead::Pending);
    assert_eq!(read_frame(b"Content-Length: 4\r\n\r\n{}", 0), FrameRead::Pending);
    assert_eq!(read_frame(b"Content-Length: 0\r\n\r\n", 0), FrameRead::Frame { start: 21, len: 0 });
    assert_eq!(read_frame(b"abc", 10), FrameRead::Pending);
}

#[test]
fn a_header_line_that_is_not_utf8_stops_the_stream() {
    assert_eq!(read_frame(b"Content-Length: \xff\r\n\r\n", 0), FrameRead::BadHeader);
}

#[test]
fn framing_round_trips() {
    let mut buf = Vec::new();
    write_message(&mut buf, &value(r#"{ "id": 1, "method": "ping" }"#));
    write_message(&mut buf, &value(r#"{ "id": 2, "result": 7 }"#));
    let (first, next) = read_value(&buf, 0).unwrap();
    assert_eq!(first["method"], value(r#""ping""#));
    let (second, end) = read_value(&buf, next).unwrap();
    assert_eq!(second["result"], value("7"));
    assert_eq!(read_frame(&buf, end), FrameRead::Pending); // nothing more
}
