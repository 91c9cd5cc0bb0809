use sse_relay::event::{frame_body, frame_message, ping_frame};

fn framed_by_std(text: &str) -> Vec<u8> {
    let mut out = String::new();
    for line in text.lines() {
        out.push_str("data: ");
        out.push_str(line);
        out.push('\n');
    }
    out.push('\n');
    out.into_bytes()
}

#[test]
fn hello_is_one_field_and_an_empty_line() {
    assert_eq!(frame_message(b"hello"), b"data: hello\n\n".to_vec());
    assert_eq!(frame_body(b"hello"), b"data: hello\n\n".to_vec());
}

#[test]
fn each_line_gets_its_field() {
    assert_eq!(
        frame_message(b"one\ntwo\r\nthree"),
        b"data: one\ndata: two\ndata: three\n\n".to_vec()
    );
}

#[test]
fn a_final_line_ending_adds_no_field() {
    assert_eq!(frame_message(b"one\n"), b"data: one\n\n".to_vec());
    assert_eq!(frame_message(b"one\r\n"), b"data: one\n\n".to_vec());
    assert_eq!(frame_message(b"one\ntwo\n"), b"data: one\ndata: two\n\n".to_vec());
}

#[test]
fn an_empty_message_is_an_empty_line() {
    assert_eq!(frame_message(b""), b"\n".to_vec());
    assert_eq!(frame_body(b""), b"\n".to_vec());
}

#[test]
fn empty_lines_inside_are_kept() {
    assert_eq!(frame_message(b"\n"), b"data: \n\n".to_vec());
    assert_eq!(frame_message(b"a\n\nb"), b"data: a\ndata: \ndata: b\n\n".to_vec());
    assert_eq!(frame_message(b"\n\n"), b"data: \ndata: \n\n".to_vec());
}

#[test]
fn a_carriage_return_counts_only_before_a_line_feed() {
    assert_eq!(frame_message(b"a\rb"), b"data: a\rb\n\n".to_vec());
    assert_eq!(frame_message(b"a\r"), b"data: a\r\n\n".to_vec());
    assert_eq!(frame_message(b"a\r\r\n"), b"data: a\r\n\n".to_vec());
    assert_eq!(frame_message(b"\r\n"), b"data: \n\n".to_vec());
}

#[test]
fn framing_agrees_with_the_standard_line_splitter() {
    let samples = [
        "", "a", "a\n", "a\r\n", "a\r", "\r", "\n", "\r\n", "\n\r", "a\nb", "a\r\nb\r\n", "a\n\nb",
        "\n\n\n", "a\r\r\nb", "x\ry\nz", "grüße\nwelt", "data: x\n", " \n ", "a\n\r\nb\r",
    ];
    for s in samples {
        assert_eq!(frame_message(s.as_bytes()), framed_by_std(s), "{:?}", s);
    }
}

#[test]
fn a_frame_has_its_only_empty_line_at_the_end() {
    for text in ["", "a", "a\n\nb", "\n\n\n", "one\ntwo\nthree\n", "a\r\n\r\nb"] {
        let frame = frame_message(text.as_bytes());
        assert_eq!(frame.last(), Some(&b'\n'));
        for i in 0..frame.len().saturating_sub(1) {
            if frame[i] == b'\n' && frame[i + 1] == b'\n' {
                assert_eq!(i + 2, frame.len(), "{:?}", text);
            }
        }
        let fields = frame.iter().filter(|b| **b == b'\n').count() - 1;
        assert_eq!(fields, text.lines().count(), "{:?}", text);
    }
}

#[test]
fn malformed_bytes_are_replaced_not_refused() {
    let body = [b'f', 0xff, b'o'];
    assert_eq!(frame_body(&body), "data: f\u{fffd}o\n\n".as_bytes().to_vec());
    let cut = [b'a', 0xe2, 0x82];
    assert_eq!(frame_body(&cut), "data: a\u{fffd}\n\n".as_bytes().to_vec());
}

#[test]
fn well_formed_text_passes_unchanged() {
    let body = "grüße\n日本語";
    assert_eq!(frame_body(body.as_bytes()), "data: grüße\ndata: 日本語\n\n".as_bytes().to_vec());
}

#[test]
fn round_trip_of_a_message_of_several_lines() {
    let frame = frame_body(b"first line\nsecond line\nthird line");
    let text = String::from_utf8(frame).unwrap();
    assert!(text.ends_with("\n\n"));
    let fields: Vec<&str> = text[..text.len() - 1].lines().collect();
    assert_eq!(fields, vec!["data: first line", "data: second line", "data: third line"]);
    let lines: Vec<&str> = fields.iter().map(|f| f.strip_prefix("data: ").unwrap()).collect();
    assert_eq!(lines.join("\n"), "first line\nsecond line\nthird line");
}

#[test]
fn the_ping_frame() {
    assert_eq!(ping_frame(), b"event: ping\ndata: ping\n\n".to_vec());
}
