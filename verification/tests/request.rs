use sozu_http::buffer::{Buffer, HttpBuffer};
use sozu_http::grammar::ParseResult;
use sozu_http::http_utils::http_request;
use sozu_http::request::{default_request_result, parse_request_until_stop, try_parse_request_until_stop, RequestState};
use sozu_http::types::{Chunk, Connection, LengthInformation, Method, RRequestLine, Version};

fn buffer_with(data: &[u8]) -> HttpBuffer {
    let mut b = HttpBuffer::with_buffer(Buffer::with_capacity(16384));
    assert_eq!(b.write(data), data.len());
    b
}

fn line(method: Method, uri: &str, version: Version) -> RRequestLine {
    RRequestLine { method, uri: String::from(uri), version }
}

fn parse(data: &[u8]) -> (RequestState, Option<usize>) {
    let mut b = buffer_with(data);
    parse_request_until_stop(RequestState::Initial, None, &mut b, "SOZUBALANCEID")
}

#[test]
fn get_request_without_body() {
    let req = b"GET /index.html HTTP/1.1\r\nHost: localhost\r\nUser-Agent: curl\r\n\r\n";
    let (st, end) = parse(req);
    assert_eq!(end, Some(req.len()));
    assert_eq!(
        st,
        RequestState::Request(
            line(Method::Get, "/index.html", Version::V11),
            Connection::new(),
            String::from("localhost")
        )
    );
    assert!(st.is_proxying());
    assert!(st.has_host());
    assert!(!st.is_head());
    assert_eq!(st.get_host(), Some("localhost"));
    assert_eq!(st.get_uri(), Some("/index.html"));
    assert!(st.should_keep_alive());
    assert_eq!(st.should_copy(100), Some(100));
}

#[test]
fn post_request_with_content_length() {
    let req = b"POST /api HTTP/1.1\r\nHost: example.com\r\nContent-Length: 5\r\n\r\nhello";
    let (st, end) = parse(req);
    assert_eq!(end, Some(req.len() - 5));
    assert_eq!(
        st,
        RequestState::RequestWithBody(
            line(Method::Post, "/api", Version::V11),
            Connection::new(),
            String::from("example.com"),
            5
        )
    );
    assert_eq!(st.should_copy(59), Some(64));
}

#[test]
fn chunked_request_takes_priority_over_length() {
    let req = b"PUT /up HTTP/1.1\r\nContent-Length: 10\r\nTransfer-Encoding: gzip, chunked\r\nHost: h\r\n\r\n";
    let (st, end) = parse(req);
    assert_eq!(end, Some(req.len()));
    assert_eq!(
        st,
        RequestState::RequestWithBodyChunks(
            line(Method::Put, "/up", Version::V11),
            Connection::new(),
            String::from("h"),
            Chunk::Initial
        )
    );
    assert_eq!(st.should_copy(0), None);
}

#[test]
fn head_request_on_http10_closes() {
    let (st, _) = parse(b"HEAD / HTTP/1.0\r\nHost: a\r\n\r\n");
    assert!(st.is_head());
    assert!(!st.should_keep_alive());
    assert_eq!(st.get_request_line().map(|rl| rl.version), Some(Version::V10));
}

#[test]
fn custom_method_is_kept() {
    let (st, _) = parse(b"PURGE /x HTTP/1.1\r\nHost: a\r\n\r\n");
    assert_eq!(
        st.get_request_line().map(|rl| rl.method.clone()),
        Some(Method::Custom(String::from("PURGE")))
    );
}

#[test]
fn incomplete_request_line_waits() {
    let (st, end) = parse(b"GET /index.ht");
    assert_eq!(st, RequestState::Initial);
    assert_eq!(end, None);
    let (st, end) = parse(b"");
    assert_eq!(st, RequestState::Initial);
    assert_eq!(end, None);
}

#[test]
fn bad_request_line_is_an_error() {
    let (st, end) = parse(b"GET\r\n");
    assert_eq!(end, None);
    assert!(st.is_front_error());
    assert!(!st.is_proxying());
    assert_eq!(st.get_host(), None);
}

#[test]
fn bad_header_is_an_error() {
    let (st, end) = parse(b"GET / HTTP/1.1\r\nBad Header: x\r\n\r\n");
    assert_eq!(end, None);
    assert!(st.is_front_error());
}

#[test]
fn partial_head_resumes_where_it_stopped() {
    let first = b"GET /a HTTP/1.1\r\nHost: localhost\r\n";
    let mut b = buffer_with(first);
    let (st, end) = parse_request_until_stop(RequestState::Initial, None, &mut b, "SOZU");
    assert_eq!(end, None);
    match &st {
        RequestState::Parsing { headers, index, .. } => {
            assert_eq!(headers.len(), 1);
            assert_eq!(*index, first.len());
        },
        other => panic!("unexpected state {:?}", other),
    }
    assert_eq!(b.write(b"\r\n"), 2);
    let (st, end) = parse_request_until_stop(st, None, &mut b, "SOZU");
    assert_eq!(end, Some(first.len() + 2));
    assert_eq!(st.get_host(), Some("localhost"));
    assert_eq!(st.get_uri(), Some("/a"));
}

#[test]
fn header_line_cut_in_the_middle_is_refused() {
    // a header line that is not complete is not an empty line either
    let (st, end) = parse(b"GET /a HTTP/1.1\r\nHost: local");
    assert_eq!(end, None);
    assert!(st.is_front_error());
}

#[test]
fn parsed_data_is_skipped() {
    let mut b = buffer_with(b"XXXXGET /b HTTP/1.1\r\nHost: z\r\n\r\n");
    b.consume_parsed_data(4);
    let (st, end) = parse_request_until_stop(RequestState::Initial, None, &mut b, "SOZU");
    assert_eq!(end, Some(28));
    assert_eq!(st.get_uri(), Some("/b"));
    assert_eq!(b.parsed_position, 4);
}

#[test]
fn error_state_keeps_host_and_connection() {
    let (st, _) = parse(b"GET / HTTP/1.1\r\nHost: keep.me\r\n\r\n");
    let err = st.into_error();
    assert!(err.is_front_error());
    assert_eq!(err.get_host(), Some("keep.me"));
    assert_eq!(err.get_keep_alive(), Some(&Connection::new()));
    assert_eq!(err.get_uri(), None);
    // an error stays the same error
    let again = err.clone().into_error();
    assert_eq!(again, err);
    assert_eq!(RequestState::Initial.into_error().get_host(), None);
}

#[test]
fn keep_alive_follows_the_connection() {
    let (mut st, _) = parse(b"GET / HTTP/1.1\r\nHost: a\r\n\r\n");
    st.get_mut_connection().unwrap().keep_alive = Some(false);
    assert!(!st.should_keep_alive());
    let mut init = RequestState::Initial;
    assert!(init.get_mut_connection().is_none());
    assert!(!init.should_keep_alive());
}

#[test]
fn default_result_errors_or_waits() {
    assert_eq!(
        default_request_result(RequestState::Initial, ParseResult::<()>::Incomplete),
        RequestState::Initial
    );
    assert!(default_request_result(RequestState::Initial, ParseResult::<()>::Error).is_front_error());
}

#[test]
fn length_information_is_reported_in_errors() {
    let (st, _) = parse(b"POST / HTTP/1.1\r\nHost: a\r\nContent-Length: 7\r\n\r\n");
    match st.into_error() {
        RequestState::Error { length, host, .. } => {
            assert_eq!(length, Some(LengthInformation::Length(7)));
            assert_eq!(host, Some(String::from("a")));
        },
        other => panic!("unexpected state {:?}", other),
    }
}

#[test]
fn resumed_parse_equals_parse_of_everything() {
    let whole = b"POST /r HTTP/1.1\r\nHost: srv\r\nContent-Length: 3\r\n\r\nabc";
    let all_at_once = parse(whole);
    // the first bytes end at a header line boundary
    let cut = 29;
    let mut b = buffer_with(&whole[..cut]);
    let (st, end) = parse_request_until_stop(RequestState::Initial, None, &mut b, "SOZU");
    assert!(matches!(st, RequestState::Parsing { .. }));
    assert_eq!(end, None);
    assert_eq!(b.write(&whole[cut..]), whole.len() - cut);
    let resumed = parse_request_until_stop(st, None, &mut b, "SOZU");
    assert_eq!(resumed, all_at_once);
}

#[test]
fn head_end_is_reported_only_for_complete_heads() {
    for data in [&b"GET / HTTP/1.1\r\nHost: a\r\n\r\n"[..], b"GET / HTTP/1.1\r\nHost: a\r\n", b"GET / HTTP/1.1\r\nHost: a\r", b"bad line\r\n"] {
        let (st, end) = parse(data);
        assert_eq!(end.is_some(), st.is_proxying(), "{:?}", data);
    }
}

#[test]
fn helper_request_reads_back() {
    let text = http_request("GET", "/api", "ping");
    let (st, end) = parse(text.as_bytes());
    assert_eq!(end, Some(3 + 4 + 55));
    assert_eq!(
        st,
        RequestState::Request(line(Method::Get, "/api", Version::V11), Connection::new(), String::from("localhost"))
    );
    assert_eq!(&text.as_bytes()[62..], b"ping");
}

#[test]
fn checked_parse_tells_when_it_cannot() {
    // two Content-Length headers that disagree cannot be read
    let mut b = buffer_with(b"PUT / HTTP/1.1\r\nContent-Length: 1\r\nContent-Length: 2\r\nHost: h\r\n\r\n");
    assert_eq!(try_parse_request_until_stop(RequestState::Initial, None, &mut b, "SOZU"), None);
    // nor a Content-Length that is not a number
    let mut b = buffer_with(b"PUT / HTTP/1.1\r\nContent-Length: x\r\nHost: h\r\n\r\n");
    assert_eq!(try_parse_request_until_stop(RequestState::Initial, None, &mut b, "SOZU"), None);
    // no host
    let mut b = buffer_with(b"GET / HTTP/1.1\r\n\r\n");
    assert_eq!(try_parse_request_until_stop(RequestState::Initial, None, &mut b, "SOZU"), None);
    // a complete request is not a state parsing goes on from
    let (done, _) = parse(b"GET / HTTP/1.1\r\nHost: a\r\n\r\n");
    let mut b = buffer_with(b"");
    assert_eq!(try_parse_request_until_stop(done, None, &mut b, "SOZU"), None);
    // otherwise it parses as the unchecked parse does
    let req = b"GET /x HTTP/1.1\r\nHost: a\r\n\r\n";
    let mut b = buffer_with(req);
    assert_eq!(try_parse_request_until_stop(RequestState::Initial, None, &mut b, "SOZU"), Some(parse(req)));
}

#[test]
fn chunked_before_length_stays_chunked() {
    let req = b"PUT /up HTTP/1.1\r\nTransfer-Encoding: gzip, chunked\r\nContent-Length: 10\r\nHost: h\r\n\r\n";
    let (st, end) = parse(req);
    assert_eq!(end, Some(req.len()));
    assert_eq!(
        st,
        RequestState::RequestWithBodyChunks(
            line(Method::Put, "/up", Version::V11),
            Connection::new(),
            String::from("h"),
            Chunk::Initial
        )
    );
    // and a differing Content-Length after chunked changes nothing either
    let (st, _) = parse(b"PUT /up HTTP/1.1\r\nTransfer-Encoding: chunked\r\nContent-Length: 1\r\nContent-Length: 2\r\nHost: h\r\n\r\n");
    assert!(matches!(st, RequestState::RequestWithBodyChunks(_, _, _, Chunk::Initial)));
}

#[test]
fn repeated_equal_length_is_accepted() {
    let req = b"POST / HTTP/1.1\r\nContent-Length: 4\r\nHost: h\r\nContent-Length: 4\r\n\r\n";
    let (st, end) = parse(req);
    assert_eq!(end, Some(req.len()));
    assert_eq!(
        st,
        RequestState::RequestWithBody(line(Method::Post, "/", Version::V11), Connection::new(), String::from("h"), 4)
    );
}
