use sozu_http::grammar::{
    chunk_header, compare_no_case, crlf, list_contains, message_header, parse_usize, request_line,
    status_line, HeaderRange, ParseResult, RequestLineRange, StatusLineRange,
};
use sozu_http::types::Version;

#[test]
fn crlf_outcomes() {
    assert_eq!(crlf(b"\r\nabc"), ParseResult::Done(2, ()));
    assert_eq!(crlf(b"\r"), ParseResult::Incomplete);
    assert_eq!(crlf(b""), ParseResult::Incomplete);
    assert_eq!(crlf(b"\n\r"), ParseResult::Error);
    assert_eq!(crlf(b"\rx"), ParseResult::Error);
}

#[test]
fn header_line_parses() {
    let r = message_header(b"Content-Length: 12\r\nrest");
    assert_eq!(
        r,
        ParseResult::Done(20, HeaderRange { name_end: 14, value_start: 16, value_end: 18 })
    );
    // no space after the colon
    assert_eq!(
        message_header(b"Host:a\r\n"),
        ParseResult::Done(8, HeaderRange { name_end: 4, value_start: 5, value_end: 6 })
    );
}

#[test]
fn header_line_incomplete_and_errors() {
    assert_eq!(message_header(b"Content-Len"), ParseResult::Incomplete);
    assert_eq!(message_header(b"Host: local"), ParseResult::Incomplete);
    assert_eq!(message_header(b"Host: localhost\r"), ParseResult::Incomplete);
    assert_eq!(message_header(b"\r\n"), ParseResult::Error);
    assert_eq!(message_header(b"Bad Name: x\r\n"), ParseResult::Error);
    assert_eq!(message_header(b"Host: a\rb\r\n"), ParseResult::Error);
    assert_eq!(message_header(b""), ParseResult::Incomplete);
}

#[test]
fn status_line_parses() {
    assert_eq!(
        status_line(b"HTTP/1.1 200 OK\r\n"),
        ParseResult::Done(17, StatusLineRange { version: Version::V11, reason_end: 15 })
    );
    assert_eq!(
        status_line(b"HTTP/1.0 404 Not Found\r\nX"),
        ParseResult::Done(24, StatusLineRange { version: Version::V10, reason_end: 22 })
    );
    assert_eq!(status_line(b"HTTP/1.1 20"), ParseResult::Incomplete);
    assert_eq!(status_line(b"HTT"), ParseResult::Incomplete);
    assert_eq!(status_line(b"HTTP/2.0 200 OK\r\n"), ParseResult::Error);
    assert_eq!(status_line(b"HTTP/1.2 200 OK\r\n"), ParseResult::Error);
}

#[test]
fn request_line_parses() {
    assert_eq!(
        request_line(b"GET /api HTTP/1.1\r\n"),
        ParseResult::Done(
            19,
            RequestLineRange { method_end: 3, uri_start: 4, uri_end: 8, version: Version::V11 }
        )
    );
    assert_eq!(request_line(b"GET /api HTTP/1."), ParseResult::Incomplete);
    assert_eq!(request_line(b"GET  /api HTTP/1.1\r\n"), ParseResult::Error);
}

#[test]
fn chunk_header_parses() {
    assert_eq!(chunk_header(b"1a\r\n", 0), ParseResult::Done(4, 26));
    assert_eq!(chunk_header(b"xxFF\r\n", 2), ParseResult::Done(6, 255));
    assert_eq!(chunk_header(b"1a", 0), ParseResult::Incomplete);
    assert_eq!(chunk_header(b"g\r\n", 0), ParseResult::Error);
    assert_eq!(chunk_header(b"1ffffffffffffffff\r\n", 0), ParseResult::Error);
}

#[test]
fn usize_parsing() {
    assert_eq!(parse_usize(b"0"), Some(0));
    assert_eq!(parse_usize(b"+42"), Some(42));
    assert_eq!(parse_usize(b"18446744073709551615"), Some(usize::MAX));
    assert_eq!(parse_usize(b"18446744073709551616"), None);
    assert_eq!(parse_usize(b""), None);
    assert_eq!(parse_usize(b"+"), None);
    assert_eq!(parse_usize(b"-1"), None);
    assert_eq!(parse_usize(b"12a"), None);
    assert_eq!(parse_usize(b" 12"), None);
}

#[test]
fn case_insensitive_words() {
    assert!(compare_no_case(b"Content-LENGTH", b"content-length"));
    assert!(!compare_no_case(b"content-lengt", b"content-length"));
    assert!(!compare_no_case(b"[", b"{"));
    assert!(list_contains(b"gzip, Chunked", b"chunked"));
    assert!(list_contains(b"  keep-alive ,Upgrade", b"upgrade"));
    assert!(list_contains(b"close", b"close"));
    assert!(!list_contains(b"closed", b"close"));
    assert!(!list_contains(b"", b"close"));
}
