use lsp_broker::framing::{
    read_body, read_header_line, read_lsp_message, write_lsp_message, FrameError, HeaderLine,
    HeaderReader,
};

#[test]
fn a_message_is_framed_with_its_length_in_bytes() {
    assert_eq!(write_lsp_message("{}"), "Content-Length: 2\r\n\r\n{}");
    assert_eq!(write_lsp_message(""), "Content-Length: 0\r\n\r\n");
    assert_eq!(write_lsp_message("\u{e9}\u{1f600}"), "Content-Length: 6\r\n\r\n\u{e9}\u{1f600}");
    let long = "x".repeat(12345);
    assert_eq!(write_lsp_message(&long), format!("Content-Length: 12345\r\n\r\n{}", long));
}

#[test]
fn what_was_written_is_read_back() {
    for body in ["", "{}", "{\"a\":\"\u{e9}\"}", "Content-Length: 3\r\n\r\n"] {
        let mut bytes = write_lsp_message(body).into_bytes();
        let length = bytes.len();
        bytes.extend_from_slice(b"and more");
        assert_eq!(read_lsp_message(&bytes), Ok((body.to_string(), length)));
    }
}

#[test]
fn the_name_of_the_header_may_be_in_any_case() {
    assert_eq!(
        read_lsp_message(b"content-LENGTH: 2\r\n\r\nok"),
        Ok(("ok".to_string(), 23))
    );
}

#[test]
fn lines_may_end_in_a_line_feed_alone() {
    assert_eq!(read_lsp_message(b"Content-Length:2\n\nok"), Ok(("ok".to_string(), 20)));
}

#[test]
fn other_headers_are_skipped_and_the_last_length_counts() {
    let input = b"Content-Length: 9\r\nContent-Type: x\r\nContent-Length: 2\r\n\r\nok";
    assert_eq!(read_lsp_message(input), Ok(("ok".to_string(), input.len())));
}

#[test]
fn a_value_ends_at_the_next_colon() {
    assert_eq!(read_header_line("Content-Length: 12: 34\r\n"), HeaderLine::Length(12));
    assert_eq!(read_header_line("Content-Length:+7\n"), HeaderLine::Length(7));
    assert_eq!(read_header_line("Content-Length:\u{a0}7\u{2003}\n"), HeaderLine::Length(7));
}

#[test]
fn header_lines_are_told_apart() {
    assert_eq!(read_header_line("\r\n"), HeaderLine::Blank);
    assert_eq!(read_header_line("\n"), HeaderLine::Blank);
    assert_eq!(read_header_line(""), HeaderLine::Other);
    assert_eq!(read_header_line("Content-Type: json\r\n"), HeaderLine::Other);
    assert_eq!(read_header_line(" Content-Length: 1\r\n"), HeaderLine::Other);
    assert_eq!(read_header_line("Content-Length\r\n"), HeaderLine::Other);
    assert_eq!(read_header_line("Content-Length: -1\r\n"), HeaderLine::BadLength);
    assert_eq!(read_header_line("Content-Length:\r\n"), HeaderLine::BadLength);
    assert_eq!(
        read_header_line("Content-Length: 99999999999999999999999\r\n"),
        HeaderLine::BadLength
    );
}

#[test]
fn each_way_to_fail_has_its_error_and_takes_its_bytes() {
    let cases: [(&[u8], FrameError, &[u8]); 8] = [
        (b"", FrameError::Eof, b""),
        (b"Content-Length: 2\r\n", FrameError::Eof, b""),
        (b"A: \xff\r\nB: c\r\n", FrameError::HeaderNotUtf8, b"B: c\r\n"),
        (b"Content-Length: two\r\n\r\nok", FrameError::InvalidContentLength, b"\r\nok"),
        (b"A: b\r\n\r\nok", FrameError::MissingContentLength, b"ok"),
        (b"Content-Type: x\r\n\r\n{}", FrameError::MissingContentLength, b"{}"),
        (b"Content-Length: 3\r\n\r\nok", FrameError::Truncated, b""),
        (b"Content-Length: 2\r\n\r\n\xc3\x28next", FrameError::BodyNotUtf8, b"next"),
    ];
    for (input, error, left) in cases {
        let used = input.len() - left.len();
        assert_eq!(read_lsp_message(input), Err((error, used)));
        assert_eq!(&input[used..], left);
    }
}

#[test]
fn headers_can_be_fed_line_by_line() {
    let mut reader = HeaderReader::new();
    assert_eq!(reader.feed("Content-Type: x\r\n"), Ok(None));
    assert_eq!(reader.feed("\r\n"), Err(FrameError::MissingContentLength));
    assert_eq!(reader.feed("Content-Length: 5\r\n"), Ok(None));
    assert_eq!(reader.content_length, Some(5));
    assert_eq!(reader.feed("\r\n"), Ok(Some(5)));
    assert_eq!(reader.feed("Content-Length: x\r\n"), Err(FrameError::InvalidContentLength));
}

#[test]
fn a_body_is_utf8() {
    assert_eq!(read_body(vec![0xc3, 0xa9]), Ok("\u{e9}".to_string()));
    assert_eq!(read_body(vec![0xa9]), Err(FrameError::BodyNotUtf8));
}

#[test]
fn read_errors_have_their_messages() {
    let cases = [
        (FrameError::Eof, "EOF"),
        (FrameError::HeaderNotUtf8, "Header is not UTF-8"),
        (FrameError::InvalidContentLength, "Invalid Content-Length header"),
        (FrameError::MissingContentLength, "Missing Content-Length header"),
        (FrameError::Truncated, "Message ended early"),
        (FrameError::BodyNotUtf8, "Body is not UTF-8"),
    ];
    for (error, text) in cases {
        assert_eq!(error.message(), text);
    }
}
