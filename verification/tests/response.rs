use sozu_http::http_utils::http_response;
use sozu_http::buffer::{Buffer, BufferQueue, OutputElement};
use sozu_http::header_value::{ConnectionValue, Header, HeaderValue, TransferEncodingValue};
use sozu_http::response::{
    default_response_result, parse_response, validate_response_header, ResponseState,
};
use sozu_http::response_stream::{parse_response_until_stop, try_parse_response_until_stop, StickySession};
use sozu_http::grammar::ParseResult;
use sozu_http::types::{BufferMove, Chunk, Connection, LengthInformation, RStatusLine, Version};

fn status(code: u16, version: Version) -> RStatusLine {
    RStatusLine { version, status: code, reason: String::from("OK") }
}

fn has_status(code: u16) -> ResponseState {
    ResponseState::HasStatusLine { status: status(code, Version::V11), connection: Connection::new() }
}

fn header(name: &str, value: &str) -> Header {
    Header { name: name.as_bytes().to_vec(), value: value.as_bytes().to_vec() }
}

#[test]
fn status_line_starts_the_head() {
    let (mv, st) = parse_response(ResponseState::Initial, b"HTTP/1.1 200 OK\r\nServer", false, "SOZU", None);
    assert_eq!(mv, BufferMove::Advance(17));
    assert_eq!(st, has_status(200));
}

#[test]
fn bad_status_code_is_an_error() {
    let (mv, st) = parse_response(ResponseState::Initial, b"HTTP/1.1 2x0 OK\r\n", false, "SOZU", None);
    assert_eq!(mv, BufferMove::Stay);
    assert!(st.is_back_error());
    assert_eq!(st.get_status_line(), None);
}

#[test]
fn incomplete_status_line_waits() {
    let (mv, st) = parse_response(ResponseState::Initial, b"HTTP/1.1 20", false, "SOZU", None);
    assert_eq!(mv, BufferMove::Stay);
    assert_eq!(st, ResponseState::Initial);
}

#[test]
fn content_length_header() {
    let (mv, st) = parse_response(has_status(200), b"Content-Length: 5\r\n", false, "SOZU", None);
    assert_eq!(mv, BufferMove::Advance(19));
    assert_eq!(
        st,
        ResponseState::HasLength {
            status: status(200, Version::V11),
            connection: Connection::new(),
            length: LengthInformation::Length(5),
        }
    );
    // a HEAD response ignores it
    let (_, st) = parse_response(has_status(200), b"Content-Length: 5\r\n", true, "SOZU", None);
    assert_eq!(st, has_status(200));
}

#[test]
fn connection_header_is_deleted_and_read() {
    let (mv, st) = parse_response(has_status(200), b"Connection: close\r\n", false, "SOZU", None);
    assert_eq!(mv, BufferMove::Delete(19));
    assert_eq!(st.get_keep_alive().unwrap().keep_alive, Some(false));
    assert!(!st.should_keep_alive());
}

#[test]
fn sticky_cookie_is_deleted() {
    let (mv, _) = parse_response(has_status(200), b"Set-Cookie: SOZU=1\r\n", false, "SOZU", None);
    assert_eq!(mv, BufferMove::Delete(20));
    let (mv, _) = parse_response(has_status(200), b"Set-Cookie: other=1\r\n", false, "SOZU", None);
    assert_eq!(mv, BufferMove::Advance(21));
}

#[test]
fn end_of_head_without_length() {
    let (mv, st) = parse_response(has_status(200), b"\r\nbody", false, "SOZU", None);
    assert_eq!(mv, BufferMove::Advance(2));
    assert!(matches!(st, ResponseState::ResponseWithBodyCloseDelimited { back_closed: false, .. }));
    let (_, st) = parse_response(has_status(204), b"\r\n", false, "SOZU", None);
    assert!(matches!(st, ResponseState::Response { .. }));
    let (_, st) = parse_response(has_status(101), b"\r\n", false, "SOZU", None);
    assert!(matches!(st, ResponseState::Response { .. }));
    let (_, st) = parse_response(has_status(200), b"\r\n", true, "SOZU", None);
    assert!(matches!(st, ResponseState::Response { .. }));
}

#[test]
fn end_of_head_with_length() {
    let st = ResponseState::HasLength {
        status: status(200, Version::V11),
        connection: Connection::new(),
        length: LengthInformation::Length(4),
    };
    let (mv, st) = parse_response(st, b"\r\nbody", false, "SOZU", None);
    assert_eq!(mv, BufferMove::Advance(2));
    assert!(matches!(st, ResponseState::ResponseWithBody { length: 4, .. }));
    assert_eq!(st.should_copy(10), Some(14));
}

#[test]
fn upgrade_needs_connection_upgrade() {
    let st = validate_response_header(has_status(101), &header("Upgrade", "websocket"), false);
    match &st {
        ResponseState::HasUpgrade { upgrade, connection, .. } => {
            assert_eq!(upgrade, "websocket");
            assert_eq!(connection.upgrade.as_deref(), Some("websocket"));
        }
        _ => panic!("expected HasUpgrade, got {:?}", st),
    }
    let ok = validate_response_header(st.clone(), &header("Connection", "Upgrade"), false);
    assert!(matches!(ok, ResponseState::HasUpgrade { .. }));
    let bad = validate_response_header(st, &header("Connection", "keep-alive"), false);
    assert!(bad.is_back_error());
}

#[test]
fn headers_the_backend_may_not_send() {
    for (n, v) in [("Host", "x"), ("Forwarded", "for=1"), ("X-Forwarded-For", "1"), ("Expect", "100-continue"), ("Content-Length", "abc")] {
        let st = validate_response_header(has_status(200), &header(n, v), false);
        assert!(st.is_back_error(), "{}", n);
    }
    let st = validate_response_header(has_status(200), &header("Cookie", "a=b"), false);
    assert_eq!(st, has_status(200));
    let st = validate_response_header(has_status(200), &header("Transfer-Encoding", "gzip"), false);
    assert_eq!(st, has_status(200));
}

#[test]
fn header_values() {
    assert_eq!(header("transfer-encoding", "gzip, chunked").value(), HeaderValue::Encoding(TransferEncodingValue::Chunked));
    assert_eq!(
        header("Connection", "Keep-Alive, Upgrade").value(),
        HeaderValue::Connection(ConnectionValue { has_close: false, has_keep_alive: true, has_upgrade: true })
    );
    assert_eq!(header("X-Other", "v").value(), HeaderValue::Other(b"X-Other".to_vec(), b"v".to_vec()));
    assert_eq!(header("Content-Length", "+7").value(), HeaderValue::ContentLength(7));
}

#[test]
fn into_error_keeps_what_was_known() {
    let st = ResponseState::ResponseWithBody { status: status(200, Version::V10), connection: Connection::new(), length: 3 };
    let e = st.into_error();
    assert_eq!(
        e,
        ResponseState::Error {
            status: Some(status(200, Version::V10)),
            connection: Some(Connection::new()),
            upgrade: None,
            length: Some(LengthInformation::Length(3)),
            chunk: None,
        }
    );
    assert_eq!(e.clone().into_error(), e);
    assert!(!e.should_keep_alive());
}

#[test]
fn keep_alive_rules() {
    assert!(has_status(200).should_keep_alive());
    let v10 = ResponseState::HasStatusLine { status: status(200, Version::V10), connection: Connection::new() };
    assert!(!v10.should_keep_alive());
    let mut c = Connection::new();
    c.keep_alive = Some(true);
    let v10ka = ResponseState::HasStatusLine { status: status(200, Version::V10), connection: c };
    assert!(v10ka.should_keep_alive());
    assert!(!ResponseState::Initial.should_keep_alive());
}

#[test]
fn default_result() {
    let (mv, st) = default_response_result(has_status(200), ParseResult::<()>::Incomplete);
    assert_eq!((mv, st), (BufferMove::Stay, has_status(200)));
    let (_, st) = default_response_result(has_status(200), ParseResult::<()>::Error);
    assert!(st.is_back_error());
}

#[test]
fn chunked_body_steps() {
    assert_eq!(Chunk::Initial.parse(b"5\r\nhello\r\n0\r\n\r\n"), (BufferMove::Advance(8), Chunk::Copying));
    assert_eq!(Chunk::Copying.parse(b"\r\n0\r\n\r\n"), (BufferMove::Advance(5), Chunk::CopyingLastHeader));
    assert_eq!(Chunk::CopyingLastHeader.parse(b"\r\n"), (BufferMove::Advance(2), Chunk::Ended));
    assert_eq!(Chunk::CopyingLastHeader.parse(b"Trailer: x\r\n\r\n"), (BufferMove::Advance(12), Chunk::CopyingLastHeader));
    assert_eq!(Chunk::Initial.parse(b"5"), (BufferMove::Stay, Chunk::Initial));
    assert_eq!(Chunk::Initial.parse(b"z\r\n"), (BufferMove::Stay, Chunk::Error));
    assert_eq!(Chunk::Ended.parse(b"5\r\n"), (BufferMove::Stay, Chunk::Ended));
}

fn queue_with(data: &[u8]) -> BufferQueue {
    let mut q = BufferQueue::with_buffer(Buffer::with_capacity(1024));
    assert_eq!(q.write(data), data.len());
    q
}

#[test]
fn whole_response_with_length() {
    let data = b"HTTP/1.1 200 OK\r\nContent-Length: 4\r\nConnection: keep-alive\r\n\r\nbody";
    let mut q = queue_with(data);
    let session = StickySession { sticky_id: String::from("b1") };
    let (st, he) = parse_response_until_stop(ResponseState::Initial, None, &mut q, false, "X-Added: 1\r\n", "SOZU", Some(&session), None);
    assert!(matches!(st, ResponseState::ResponseWithBody { length: 4, .. }));
    assert!(st.should_keep_alive());
    assert_eq!(he, Some(data.len() - 4));
    assert_eq!(q.parsed_position, data.len());
    assert_eq!(
        q.output_queue,
        vec![
            OutputElement::Slice(17),
            OutputElement::Slice(19),
            OutputElement::Delete(24),
            OutputElement::Insert(b"X-Added: 1\r\n".to_vec()),
            OutputElement::Insert(b"Set-Cookie: SOZU=b1; Path=/\r\n".to_vec()),
            OutputElement::Slice(6),
        ]
    );
}

#[test]
fn incomplete_response_waits() {
    let mut q = queue_with(b"HTTP/1.1 200 OK\r\nContent-Le");
    let (st, he) = parse_response_until_stop(ResponseState::Initial, None, &mut q, false, "", "SOZU", None, None);
    assert!(matches!(st, ResponseState::HasStatusLine { .. }));
    assert_eq!(he, None);
    assert_eq!(q.parsed_position, 17);
    assert_eq!(q.output_queue, vec![OutputElement::Slice(17)]);
}

#[test]
fn close_delimited_response() {
    let data = b"HTTP/1.0 200 OK\r\nConnection: close\r\n\r\nabc";
    let mut q = queue_with(data);
    let (st, he) = parse_response_until_stop(ResponseState::Initial, None, &mut q, false, "", "SOZU", None, None);
    assert!(matches!(st, ResponseState::ResponseWithBodyCloseDelimited { .. }));
    assert_eq!(he, Some(data.len() - 3));
    assert_eq!(
        q.output_queue,
        vec![
            OutputElement::Slice(17),
            OutputElement::Delete(19),
            OutputElement::Insert(vec![]),
            OutputElement::Insert(b"Connection: close\r\n".to_vec()),
            OutputElement::Slice(2),
            OutputElement::Slice(3),
        ]
    );
    assert_eq!(q.available_input_data(), 0);
}

#[test]
fn chunked_response() {
    let data = b"HTTP/1.1 200 OK\r\nTransfer-Encoding: chunked\r\n\r\n3\r\nabc\r\n0\r\n\r\n";
    let mut q = queue_with(data);
    let (st, he) = parse_response_until_stop(ResponseState::Initial, None, &mut q, false, "", "SOZU", None, None);
    assert!(st.should_chunk());
    assert!(matches!(st, ResponseState::ResponseWithBodyChunks { chunk: Chunk::Ended, .. }));
    assert_eq!(he, Some(47));
    assert_eq!(
        q.output_queue,
        vec![
            OutputElement::Slice(17),
            OutputElement::Slice(28),
            OutputElement::Insert(vec![]),
            OutputElement::Slice(2),
            OutputElement::Slice(6),
            OutputElement::Slice(5),
            OutputElement::Slice(2),
        ]
    );
    // nothing more to read: the state stays
    let (st2, he2) = parse_response_until_stop(st, he, &mut q, false, "", "SOZU", None, None);
    assert!(matches!(st2, ResponseState::ResponseWithBodyChunks { chunk: Chunk::Ended, .. }));
    assert_eq!(he2, Some(47));
    assert_eq!(q.parsed_position, data.len());
}

#[test]
fn settled_step_ignores_what_follows() {
    let a = parse_response(has_status(200), b"Content-Length: 5\r\n", false, "SOZU", None);
    let b = parse_response(has_status(200), b"Content-Length: 5\r\nServer: x\r\n", false, "SOZU", None);
    assert_eq!(a, b);
    let a = parse_response(ResponseState::Initial, b"HTTP/1.1 404 Not Found\r\n", false, "SOZU", None);
    let b = parse_response(ResponseState::Initial, b"HTTP/1.1 404 Not Found\r\nDate: now\r\n", false, "SOZU", None);
    assert_eq!(a, b);
    assert_eq!(a.0, BufferMove::Advance(24));
    let a = Chunk::Copying.parse(b"\r\n0\r\n");
    let b = Chunk::Copying.parse(b"\r\n0\r\nTrailer: t\r\n\r\n");
    assert_eq!(a, b);
    // a step that waits may decide otherwise once more data is there
    let (mv, st) = parse_response(has_status(200), b"Content-Len", false, "SOZU", None);
    assert_eq!((mv, st), (BufferMove::Stay, has_status(200)));
}

#[test]
fn empty_input_waits() {
    for st in [ResponseState::Initial, has_status(200)] {
        let (mv, next) = parse_response(st.clone(), b"", false, "SOZU", None);
        assert_eq!(mv, BufferMove::Stay);
        assert_eq!(next, st);
    }
}

#[test]
fn every_state_errors_keeping_its_status() {
    let st = has_status(301);
    let e = st.clone().into_error();
    assert!(e.is_back_error());
    assert_eq!(e.get_status_line(), st.get_status_line());
    assert_eq!(e.get_keep_alive(), st.get_keep_alive());
    assert_eq!(ResponseState::Initial.into_error().get_status_line(), None);
}

fn queued_bytes(q: &BufferQueue) -> usize {
    q.output_queue
        .iter()
        .map(|e| match e {
            OutputElement::Slice(n) | OutputElement::Delete(n) => *n,
            OutputElement::Insert(_) => 0,
        })
        .sum()
}

#[test]
fn every_parsed_byte_is_queued_once() {
    let inputs: [&[u8]; 4] = [
        b"HTTP/1.1 200 OK\r\nContent-Length: 4\r\nConnection: keep-alive\r\nSet-Cookie: SOZU=x\r\n\r\nbody",
        b"HTTP/1.0 200 OK\r\nConnection: close\r\n\r\nabc",
        b"HTTP/1.1 200 OK\r\nTransfer-Encoding: chunked\r\n\r\n3\r\nabc\r\n0\r\n\r\n",
        b"HTTP/1.1 200 OK\r\nServer: x\r\nContent-Le",
    ];
    for data in inputs {
        let mut q = queue_with(data);
        let session = StickySession { sticky_id: String::from("b1") };
        let _ = parse_response_until_stop(ResponseState::Initial, None, &mut q, false, "X: 1\r\n", "SOZU", Some(&session), None);
        assert_eq!(queued_bytes(&q), q.parsed_position, "{:?}", data);
    }
}

#[test]
fn helper_response_reads_back() {
    let text = http_response("pong0");
    let b = text.as_bytes();
    let (mv, st) = parse_response(ResponseState::Initial, b, false, "SOZU", None);
    assert_eq!(mv, BufferMove::Advance(17));
    assert_eq!(st, has_status(200));
    let (mv, st) = parse_response(st, &b[17..], false, "SOZU", None);
    assert_eq!(mv, BufferMove::Advance(19));
    let (mv, st) = parse_response(st, &b[36..], false, "SOZU", None);
    assert_eq!(mv, BufferMove::Advance(2));
    assert_eq!(
        st,
        ResponseState::ResponseWithBody { status: status(200, Version::V11), connection: Connection::new(), length: 5 }
    );
    assert_eq!(&b[38..], b"pong0");
}

#[test]
fn connection_written_is_read_back() {
    let mut st = has_status(200);
    st.get_mut_connection().unwrap().keep_alive = Some(false);
    assert_eq!(st.get_keep_alive().unwrap().keep_alive, Some(false));
    assert_eq!(st.get_status_line(), Some(&status(200, Version::V11)));
    let mut init = ResponseState::Initial;
    assert!(init.get_mut_connection().is_none());
    assert_eq!(init, ResponseState::Initial);
}

#[test]
fn checked_response_parse_tells_when_it_cannot() {
    // a body delimited by the closing of the connection, with nothing buffered, would move by nothing
    let st = ResponseState::ResponseWithBodyCloseDelimited { status: status(200, Version::V11), connection: Connection::new(), back_closed: false };
    let mut q = queue_with(b"");
    assert!(try_parse_response_until_stop(st, Some(0), &mut q, false, "", "SOZU", None, None).is_none());
    let data = b"HTTP/1.1 200 OK\r\nContent-Length: 2\r\n\r\nok";
    let mut q1 = queue_with(data);
    let mut q2 = queue_with(data);
    let a = try_parse_response_until_stop(ResponseState::Initial, None, &mut q1, false, "", "SOZU", None, None);
    let b = parse_response_until_stop(ResponseState::Initial, None, &mut q2, false, "", "SOZU", None, None);
    assert_eq!(a, Some(b));
    assert_eq!(q1.output_queue, q2.output_queue);
}

#[test]
fn known_head_end_is_kept_without_inserts() {
    let st = ResponseState::ResponseWithBodyChunks { status: status(200, Version::V11), connection: Connection::new(), chunk: Chunk::Initial };
    let mut q = queue_with(b"3\r\nabc\r\n0\r\n\r\n");
    let session = StickySession { sticky_id: String::from("b1") };
    let (st, he) = parse_response_until_stop(st, Some(40), &mut q, false, "X: 1\r\n", "SOZU", Some(&session), None);
    assert_eq!(he, Some(40));
    assert!(matches!(st, ResponseState::ResponseWithBodyChunks { chunk: Chunk::Ended, .. }));
    assert!(q.output_queue.iter().all(|e| !matches!(e, OutputElement::Insert(_))));
}
