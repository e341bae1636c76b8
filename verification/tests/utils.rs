use sozu_http::aggregator::SimpleAggregator;
use sozu_http::buffer::{http_buf_with_capacity, Buffer, BufferQueue, HttpBuffer, OutputElement};
use sozu_http::grammar::parse_usize;
use sozu_http::harness::{backend_stop_verdict, repeat_ends_at_once, repeat_next, timeout_verdict, RepeatEnd, State};
use sozu_http::http_utils::{decimal_string, http_request, http_response};

#[test]
fn response_carries_its_length() {
    assert_eq!(http_response("pong0"), "HTTP/1.1 200 OK\r\nContent-Length: 5\r\n\r\npong0");
    assert_eq!(http_response(""), "HTTP/1.1 200 OK\r\nContent-Length: 0\r\n\r\n");
    let long = "a".repeat(1234);
    assert_eq!(
        http_response(&long),
        format!("HTTP/1.1 200 OK\r\nContent-Length: 1234\r\n\r\n{}", long)
    );
    // the length counts bytes, not characters
    assert_eq!(http_response("é"), "HTTP/1.1 200 OK\r\nContent-Length: 2\r\n\r\né");
}

#[test]
fn request_is_kept_alive_to_localhost() {
    assert_eq!(
        http_request("POST", "/api", "ping"),
        "POST /api HTTP/1.1\r\nHost: localhost\r\nConnection: keep-alive\r\n\r\nping"
    );
    assert_eq!(
        http_request("GET", "/", ""),
        "GET / HTTP/1.1\r\nHost: localhost\r\nConnection: keep-alive\r\n\r\n"
    );
}

#[test]
fn decimal_writes_numbers() {
    assert_eq!(decimal_string(0), "0");
    assert_eq!(decimal_string(7), "7");
    assert_eq!(decimal_string(10), "10");
    assert_eq!(decimal_string(907), "907");
    assert_eq!(decimal_string(usize::MAX), usize::MAX.to_string());
}

#[test]
fn buffer_keeps_what_fits() {
    let mut b = Buffer::with_capacity(4);
    assert_eq!(b.available_space(), 4);
    assert_eq!(b.write(b"abc"), 3);
    assert_eq!(b.write(b"def"), 1);
    assert_eq!(b.data(), b"abcd");
    assert_eq!(b.available_data(), 4);
    assert_eq!(b.available_space(), 0);
    assert_eq!(b.write(b"x"), 0);
    b.reset();
    assert_eq!(b.data(), b"");
    assert_eq!(b.available_space(), 4);
}

#[test]
fn http_buffer_tracks_the_parsed_part() {
    let mut b = HttpBuffer::with_buffer(Buffer::with_capacity(32));
    b.check_invariant();
    assert_eq!(b.write(b"hello world"), 11);
    assert_eq!(b.unparsed_data(), b"hello world");
    b.consume_parsed_data(6);
    assert_eq!(b.unparsed_data(), b"world");
    b.consume_parsed_data(10);
    assert_eq!(b.unparsed_data(), b"");
    b.reset();
    assert_eq!(b.parsed_position, 0);
    assert_eq!(b.unparsed_data(), b"");
}

#[test]
fn buffer_queue_counts_input_and_output() {
    let mut q = BufferQueue::with_buffer(Buffer::with_capacity(32));
    assert_eq!(q.write(b"HTTP/1.1 200 OK\r\n"), 17);
    assert_eq!(q.available_input_data(), 17);
    q.consume_parsed_data(9);
    assert_eq!(q.unparsed_data(), b"200 OK\r\n");
    assert_eq!(q.available_input_data(), 8);
    q.slice_output(9);
    q.delete_output(2);
    q.insert_output(b"x".to_vec());
    assert_eq!(
        q.output_queue,
        vec![OutputElement::Slice(9), OutputElement::Delete(2), OutputElement::Insert(b"x".to_vec())]
    );
}

#[test]
fn aggregator_counts() {
    let mut a = SimpleAggregator { received: 0, sent: 0 };
    a.received += 1;
    let b = a.clone();
    assert_eq!(b.received, 1);
    assert_eq!(b.sent, 0);
}

#[test]
fn decimal_reads_back() {
    for n in [0, 5, 4096, usize::MAX] {
        assert_eq!(parse_usize(decimal_string(n).as_bytes()), Some(n));
    }
}

#[test]
fn written_data_is_read_back_after_what_was_parsed() {
    let mut b = HttpBuffer::with_buffer(Buffer::with_capacity(64));
    b.write(b"GET / HTTP/1.1\r\n");
    b.consume_parsed_data(4);
    let before = b.unparsed_data().to_vec();
    b.write(b"Host: a\r\n");
    let mut expected = before.clone();
    expected.extend_from_slice(b"Host: a\r\n");
    assert_eq!(b.unparsed_data(), &expected[..]);
    b.consume_parsed_data(3);
    assert_eq!(b.unparsed_data(), &expected[3..]);
}

#[test]
fn run_verdicts() {
    assert_eq!(backend_stop_verdict(false, 500_000_000), State::Fail);
    assert_eq!(backend_stop_verdict(true, 100_000_001), State::Verified);
    assert_eq!(backend_stop_verdict(true, 100_000_000), State::Success);
    assert_eq!(timeout_verdict(true, 100_000_001), State::Fail);
    assert_eq!(timeout_verdict(true, 99), State::Success);
    assert_eq!(timeout_verdict(false, 0), State::Fail);
}

#[test]
fn repeat_stops_at_first_verdict() {
    assert_eq!(repeat_ends_at_once(0), Some(RepeatEnd::Completed(0)));
    assert_eq!(repeat_ends_at_once(3), None);
    assert_eq!(repeat_next(1, 3, State::Success), None);
    assert_eq!(repeat_next(2, 3, State::Fail), Some(RepeatEnd::Failed(2)));
    assert_eq!(repeat_next(2, 3, State::Verified), Some(RepeatEnd::Verified(2)));
    assert_eq!(repeat_next(3, 3, State::Success), Some(RepeatEnd::Completed(3)));
}

#[test]
fn reset_gives_back_all_the_room() {
    let mut b = HttpBuffer::with_buffer(Buffer::with_capacity(8));
    b.write(b"abcdef");
    b.consume_parsed_data(2);
    b.reset();
    assert_eq!(b.buffer.available_space(), 8);
    assert_eq!(b.unparsed_data(), b"");
}

#[test]
fn request_buffer_with_capacity_is_empty() {
    let mut b = http_buf_with_capacity(16);
    assert_eq!(b.unparsed_data(), b"");
    assert_eq!(b.buffer.available_space(), 16);
    assert_eq!(b.parsed_position, 0);
    assert_eq!(b.write(b"0123456789abcdefXYZ"), 16);
}

#[test]
fn head_inserts_come_in_order() {
    let mut q = BufferQueue::with_buffer(Buffer::with_capacity(128));
    q.write(b"HTTP/1.0 200 OK\r\nConnection: close\r\n\r\nbody");
    let session = sozu_http::response_stream::StickySession { sticky_id: String::from("7") };
    let _ = sozu_http::response_stream::parse_response_until_stop(
        sozu_http::response::ResponseState::Initial, None, &mut q, false, "X: 1\r\n", "S", Some(&session), None);
    assert_eq!(
        q.output_queue,
        vec![
            OutputElement::Slice(17),
            OutputElement::Delete(19),
            OutputElement::Insert(b"X: 1\r\n".to_vec()),
            OutputElement::Insert(b"Set-Cookie: S=7; Path=/\r\n".to_vec()),
            OutputElement::Insert(b"Connection: close\r\n".to_vec()),
            OutputElement::Slice(2),
            OutputElement::Slice(4),
        ]
    );
}
