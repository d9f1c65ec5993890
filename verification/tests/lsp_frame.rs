use vanyline_sandbox::lsp::frame::FramePoll;
use vanyline_sandbox::lsp::frame::{encode_message, FrameReader};

#[test]
fn encode_has_content_length_header() {
    let payload = b"{\"jsonrpc\":\"2.0\"}";
    let encoded = encode_message(payload);
    let prefix = format!("Content-Length: {}\r\n\r\n", payload.len());
    assert!(
        encoded.starts_with(prefix.as_bytes()),
        "expected Content-Length header"
    );
    assert_eq!(
        &encoded[prefix.len()..],
        payload,
        "payload must end with the raw payload"
    );
}

#[test]
fn frame_reader_reassembles_split_chunks() {
    let payload = b"{\"jsonrpc\":\"2.0\"}";
    let encoded = encode_message(payload);

    let mut reader = FrameReader::new();
    let chunks: Vec<Vec<u8>> = encoded.chunks(3).map(|c| c.to_vec()).collect();
    for chunk in &chunks {
        reader.push(chunk);
    }

    let result = reader.next_frame().expect("should yield the full payload");
    assert_eq!(result, payload, "decoded payload must match original");

    assert!(
        reader.next_frame().is_none(),
        "should return None after full frame decoded"
    );
}

#[test]
fn frame_reader_reads_two_messages() {
    let p1 = encode_message(b"hello");
    let p2 = encode_message(b"world");
    let mut reader = FrameReader::new();
    reader.push(&p1);
    reader.push(&p2);

    assert_eq!(reader.next_frame().expect("msg1"), b"hello");
    assert_eq!(reader.next_frame().expect("msg2"), b"world");
    assert!(
        reader.next_frame().is_none(),
        "should return None after both frames"
    );
}

// ── further cases ───────────────────────────────────────────────────────────

#[test]
fn encode_exact_bytes() {
    assert_eq!(encode_message(b"ab"), b"Content-Length: 2\r\n\r\nab".to_vec());
    assert_eq!(encode_message(b""), b"Content-Length: 0\r\n\r\n".to_vec());
}

#[test]
fn write_then_read_gives_the_payload_back() {
    for payload in [&b""[..], &b"x"[..], &"h\u{e9}llo w\u{f6}rld".as_bytes()[..]] {
        let mut reader = FrameReader::new();
        reader.push(&encode_message(payload));
        assert_eq!(reader.next_frame().unwrap(), payload);
        assert!(reader.next_frame().is_none());
    }
}

#[test]
fn header_name_is_case_insensitive_and_other_headers_ignored() {
    let mut reader = FrameReader::new();
    reader.push(b"Content-Type: x\r\ncontent-length: 3\r\n\r\nabcrest");
    assert_eq!(reader.next_frame().unwrap(), b"abc");
    assert!(reader.next_frame().is_none());
}

#[test]
fn incomplete_body_waits_for_more_bytes() {
    let mut reader = FrameReader::new();
    reader.push(b"Content-Length: 5\r\n\r\nab");
    assert!(reader.next_frame().is_none());
    reader.push(b"cde");
    assert_eq!(reader.next_frame().unwrap(), b"abcde");
}

#[test]
fn huge_announced_length_is_reported_as_overflow() {
    let mut reader = FrameReader::new();
    reader.push(format!("Content-Length: {}\r\n\r\n", usize::MAX).as_bytes());
    assert!(reader.overflows());
    let mut ok = FrameReader::new();
    ok.push(b"Content-Length: 1\r\n\r\n");
    assert!(!ok.overflows());
}

#[test]
fn poll_frame_incomplete_then_frame() {
    let mut r = FrameReader::new();
    r.push(b"Content-Length: 2\r\n\r\n{");
    assert_eq!(r.poll_frame(), FramePoll::Incomplete);
    r.push(b"}");
    assert_eq!(r.poll_frame(), FramePoll::Frame(b"{}".to_vec()));
    assert_eq!(r.poll_frame(), FramePoll::Incomplete);
}

#[test]
fn poll_frame_overflow() {
    let mut r = FrameReader::new();
    r.push(format!("Content-Length: {}\r\n\r\n", usize::MAX).as_bytes());
    assert_eq!(r.poll_frame(), FramePoll::Overflow);
}
