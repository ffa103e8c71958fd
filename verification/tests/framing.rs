use emit::framing::{body_length, content_length_header, read_header, FramingError, HeaderStep};

#[test]
fn content_length_is_read_in_any_case() {
    assert_eq!(read_header(None, "Content-Length: 42\r\n"), HeaderStep::Next(Some(42)));
    assert_eq!(read_header(None, "content-LENGTH:42\n"), HeaderStep::Next(Some(42)));
    assert_eq!(read_header(None, "Content-Length: +7 \r\n"), HeaderStep::Next(Some(7)));
    assert_eq!(read_header(None, "Content-Length:\t\u{a0}9\u{3000}\r\n"), HeaderStep::Next(Some(9)));
}

#[test]
fn other_headers_keep_the_known_length() {
    assert_eq!(read_header(Some(5), "Content-Type: application/json\r\n"), HeaderStep::Next(Some(5)));
    assert_eq!(read_header(Some(5), "NoColonHere\r\n"), HeaderStep::Next(Some(5)));
    assert_eq!(read_header(Some(5), "Content-Length : 8\r\n"), HeaderStep::Next(Some(5)));
}

#[test]
fn an_unreadable_length_forgets_the_known_one() {
    assert_eq!(read_header(Some(3), "Content-Length: abc\r\n"), HeaderStep::Next(None));
    assert_eq!(read_header(Some(3), "Content-Length: \r\n"), HeaderStep::Next(None));
    assert_eq!(read_header(Some(3), "Content-Length: -1\r\n"), HeaderStep::Next(None));
    assert_eq!(
        read_header(Some(3), "Content-Length: 999999999999999999999999999\r\n"),
        HeaderStep::Next(None)
    );
}

#[test]
fn a_blank_line_ends_the_headers() {
    assert_eq!(read_header(Some(1), "\r\n"), HeaderStep::End);
    assert_eq!(read_header(None, "\n"), HeaderStep::End);
    assert_eq!(read_header(None, ""), HeaderStep::End);
}

#[test]
fn header_framing_round_trip() {
    let body = "{\"jsonrpc\":\"2.0\",\"id\":1,\"method\":\"shutdown\"}";
    let header = content_length_header(body.len());
    assert_eq!(header, format!("Content-Length: {}\r\n\r\n", body.len()));
    let mut known = None;
    for line in header.split_inclusive('\n') {
        match read_header(known, line) {
            HeaderStep::Next(length) => known = length,
            HeaderStep::End => break,
        }
    }
    assert_eq!(body_length(known), Ok(body.len()));
    assert_eq!(body_length(None), Err(FramingError::MissingContentLength));
    assert_eq!(content_length_header(0), "Content-Length: 0\r\n\r\n");
}
