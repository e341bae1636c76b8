//! HTTP messages that the end-to-end tests send.
use vstd::prelude::*;
use vstd::string::{StringExecFns, StringSliceAdditionalSpecFns};
use vstd::utf8::encode_utf8;
use crate::text::{ascii_chars, ascii_string, is_ascii_bytes};
use crate::grammar::{
    colon_lit, crlf_lit, eq_no_case, http1_lit, in_class, space_lit, span, spec_message_header,
    spec_crlf, spec_request_line, CharClass, HeaderRange, ParseResult, RequestLineRange,
};
use crate::header_value::spec_should_delete;
use crate::keyword::{kw, Keyword};
use crate::response::{header_name, header_value_bytes};
use crate::response::{spec_parse_response, ResponseStateV};
use crate::request::{
    finish_header, finish_headers, header_at, parse_headers, spec_finish_request,
    spec_parse_request_until_stop, FinishAcc, RequestStateV,
};
use vstd::utf8::{decode_utf8, valid_utf8};
use crate::header::{
    spec_method, spec_request_line_of, spec_slice_data, Header, HeaderName, Meta, RequestLine, Slice,
};
use crate::types::{fresh_connection, BufferMove, LengthInformation, RRequestLineV, RStatusLineV, Version};

verus! {

/// Decimal digits of `n`, most significant first, without leading zeros.
pub open spec fn decimal_digits(n: nat) -> Seq<u8>
    decreases n,
{
    if n < 10 {
        seq![(n + 48) as u8]
    } else {
        decimal_digits(n / 10).push((n % 10 + 48) as u8)
    }
}

/// `n` written in decimal.
pub open spec fn decimal(n: nat) -> Seq<char> {
    ascii_chars(decimal_digits(n))
}

proof fn lemma_digits_ascii(n: nat)
    ensures
        forall|i: int| 0 <= i < decimal_digits(n).len() ==> #[trigger] decimal_digits(n)[i] < 128,
    decreases n,
{
    if n >= 10 {
        lemma_digits_ascii(n / 10);
        let d = decimal_digits(n);
        assert forall|i: int| 0 <= i < d.len() implies #[trigger] d[i] < 128 by {
            if i < d.len() - 1 {
                assert(d[i] == decimal_digits(n / 10)[i]);
            }
        }
    }
}

fn push_digits(n: usize, out: &mut Vec<u8>)
    ensures
        final(out)@ == old(out)@ + decimal_digits(n as nat),
    decreases n,
{
    if n >= 10 {
        push_digits(n / 10, out);
    }
    out.push((n % 10) as u8 + 48);
    assert(final(out)@ =~= old(out)@ + decimal_digits(n as nat));
}

/// `n` written in decimal.
pub fn decimal_string(n: usize) -> (r: String)
    ensures
        r@ == decimal(n as nat),
{
    let mut digits: Vec<u8> = Vec::new();
    push_digits(n, &mut digits);
    assert(digits@ =~= decimal_digits(n as nat));
    proof {
        lemma_digits_ascii(n as nat);
    }
    ascii_string(digits.as_slice())
}

/// The text of a `200 OK` response with `content` as its body and `length`
/// as its `Content-Length`.
pub open spec fn response_text(content: Seq<char>, length: nat) -> Seq<char> {
    "HTTP/1.1 200 OK\r\nContent-Length: "@ + decimal(length) + "\r\n\r\n"@ + content
}

/// A `200 OK` response with `content` as its body and its length in bytes
/// (`str::len`) as its `Content-Length`.
pub fn http_response(content: &str) -> (r: String)
    ensures
        r@ == response_text(content@, content.len() as nat),
{
    let mut r = String::from_str("HTTP/1.1 200 OK\r\nContent-Length: ");
    let length = decimal_string(content.len());
    r.append(length.as_str());
    r.append("\r\n\r\n");
    r.append(content);
    r
}

/// The text of a request for `uri` with `method` to `localhost` on a
/// kept-alive connection, with `content` after the head.
pub open spec fn request_text(method: Seq<char>, uri: Seq<char>, content: Seq<char>) -> Seq<char> {
    method + " "@ + uri + " HTTP/1.1\r\nHost: localhost\r\nConnection: keep-alive\r\n\r\n"@ + content
}

/// A request for `uri` with `method` to `localhost` on a kept-alive
/// connection, with `content` after the head.
pub fn http_request(method: &str, uri: &str, content: &str) -> (r: String)
    ensures
        r@ == request_text(method@, uri@, content@),
{
    let mut r = String::from_str(method);
    r.append(" ");
    r.append(uri);
    r.append(" HTTP/1.1\r\nHost: localhost\r\nConnection: keep-alive\r\n\r\n");
    r.append(content);
    r
}

proof fn lemma_digits_value(n: nat)
    ensures
        decimal_digits(n).len() >= 1,
        crate::grammar::dec_value(decimal_digits(n)) == n,
        forall|i: int| 0 <= i < decimal_digits(n).len() ==> 48 <= #[trigger] decimal_digits(n)[i] <= 57,
    decreases n,
{
    let d = decimal_digits(n);
    if n >= 10 {
        lemma_digits_value(n / 10);
        assert(d.drop_last() =~= decimal_digits(n / 10));
        assert(d.last() == (n % 10 + 48) as u8);
        assert(crate::grammar::digit_value(d.last()) == n % 10);
        assert((n / 10) * 10 + n % 10 == n) by (nonlinear_arith);
        assert(crate::grammar::dec_value(d) == crate::grammar::dec_value(d.drop_last()) * 10
            + crate::grammar::digit_value(d.last()));
        assert forall|i: int| 0 <= i < d.len() implies 48 <= #[trigger] d[i] <= 57 by {
            if i < d.len() - 1 {
                assert(d[i] == decimal_digits(n / 10)[i]);
            }
        }
    } else {
        assert(d.drop_last() =~= Seq::<u8>::empty());
        assert(crate::grammar::digit_value(d.last()) == n);
        assert(crate::grammar::dec_value(d.drop_last()) == 0);
        assert(crate::grammar::dec_value(d) == crate::grammar::dec_value(d.drop_last()) * 10
            + crate::grammar::digit_value(d.last()));
    }
}

proof fn lemma_span_all(s: Seq<u8>, i: int, c: crate::grammar::CharClass)
    requires
        0 <= i <= s.len(),
        forall|k: int| i <= k < s.len() ==> crate::grammar::in_class(c, #[trigger] s[k]),
    ensures
        crate::grammar::span(s, i, c) == s.len(),
    decreases s.len() - i,
{
    if i < s.len() {
        lemma_span_all(s, i + 1, c);
    }
}

/// A number written in decimal, as in the `Content-Length` of
/// `http_response`, is read back as the same number.
pub proof fn law_decimal_reads_back(n: usize)
    ensures
        crate::grammar::spec_parse_usize(decimal_digits(n as nat)) == Some(n),
{
    let d = decimal_digits(n as nat);
    lemma_digits_value(n as nat);
    assert(d[0] != 43);
    lemma_span_all(d, 0, crate::grammar::CharClass::Digit);
    assert(d.subrange(0, d.len() as int) =~= d);
}

proof fn lemma_encode_concat(a: Seq<char>, b: Seq<char>)
    ensures
        encode_utf8(a + b) == encode_utf8(a) + encode_utf8(b),
    decreases a.len(),
{
    if a.len() > 0 {
        assert((a + b).drop_first() =~= a.drop_first() + b);
        lemma_encode_concat(a.drop_first(), b);
        assert(encode_utf8(a + b) =~= encode_utf8(a) + encode_utf8(b));
    } else {
        assert(a + b =~= b);
        assert(encode_utf8(a) + encode_utf8(b) =~= encode_utf8(b));
    }
}

/// `HTTP/1.1 200 OK` CRLF `Content-Length: `
pub open spec fn response_start() -> Seq<u8> {
    seq![
        72u8, 84u8, 84u8, 80u8, 47u8, 49u8, 46u8, 49u8, 32u8, 50u8, 48u8, 48u8, 32u8, 79u8, 75u8, 13u8, 10u8,
        67u8, 111u8, 110u8, 116u8, 101u8, 110u8, 116u8, 45u8, 76u8, 101u8, 110u8, 103u8, 116u8, 104u8, 58u8, 32u8,
    ]
}

/// The bytes of a response that `http_response` writes.
proof fn lemma_response_bytes(content: Seq<char>, length: nat)
    ensures
        encode_utf8(response_text(content, length)) == response_start() + decimal_digits(length)
            + (seq![13u8, 10u8] + seq![13u8, 10u8]) + encode_utf8(content),
{
    let l1 = "HTTP/1.1 200 OK\r\nContent-Length: ";
    let l2 = "\r\n\r\n";
    reveal_strlit("HTTP/1.1 200 OK\r\nContent-Length: ");
    reveal_strlit("\r\n\r\n");
    assert(l1@ =~= crate::text::ascii_chars(response_start()));
    assert(l2@ =~= crate::text::ascii_chars(seq![13u8, 10u8, 13u8, 10u8]));
    crate::text::lemma_ascii_encoding(response_start());
    crate::text::lemma_ascii_encoding(seq![13u8, 10u8, 13u8, 10u8]);
    lemma_digits_ascii(length);
    crate::text::lemma_ascii_encoding(decimal_digits(length));
    let d = decimal(length);
    lemma_encode_concat(l1@, d);
    lemma_encode_concat(l1@ + d, l2@);
    lemma_encode_concat(l1@ + d + l2@, content);
    assert(seq![13u8, 10u8, 13u8, 10u8] =~= seq![13u8, 10u8] + seq![13u8, 10u8]);
}

pub(crate) proof fn lemma_span_run(s: Seq<u8>, i: int, e: int, c: CharClass)
    requires
        0 <= i <= e < s.len(),
        forall|j: int| i <= j < e ==> in_class(c, #[trigger] s[j]),
        !in_class(c, s[e]),
    ensures
        span(s, i, c) == e,
    decreases e - i,
{
    if i < e {
        lemma_span_run(s, i + 1, e, c);
    }
}

/// The status line of the responses that `http_response` writes.
pub open spec fn ok_status() -> RStatusLineV {
    RStatusLineV { version: Version::V11, status: 200, reason: ascii_chars(seq![79u8, 75u8]) }
}

proof fn lemma_parse_status(b: Seq<u8>, rest: Seq<u8>, name: Seq<u8>)
    requires
        b == response_start() + rest,
    ensures
        spec_parse_response(ResponseStateV::Initial, b, false, name) == (
            BufferMove::Advance(17),
            ResponseStateV::HasStatusLine { status: ok_status(), connection: fresh_connection() },
        ),
{
    let st = response_start();
    assert forall|i: int| 0 <= i < 33 implies b[i] == #[trigger] st[i] by {}
    assert(b.subrange(0, 7) =~= http1_lit());
    assert(b.subrange(8, 9) =~= space_lit());
    assert(b.subrange(12, 13) =~= space_lit());
    assert(b[13] == 79 && b[14] == 75 && b[15] == 13);
    lemma_span_run(b, 13, 15, CharClass::HeaderValue);
    assert(b.subrange(15, 17) =~= crlf_lit());
    assert(b.subrange(13, 15) =~= seq![79u8, 75u8]);
}

/// `Content-Length: `
pub open spec fn content_length_field() -> Seq<u8> {
    seq![67u8, 111u8, 110u8, 116u8, 101u8, 110u8, 116u8, 45u8, 76u8, 101u8, 110u8, 103u8, 116u8, 104u8, 58u8, 32u8]
}

proof fn lemma_parse_length(s2: Seq<u8>, n: usize, tail: Seq<u8>, name: Seq<u8>)
    requires
        s2 == content_length_field() + decimal_digits(n as nat) + seq![13u8, 10u8] + tail,
        s2.len() <= usize::MAX,
    ensures
        spec_parse_response(
            ResponseStateV::HasStatusLine { status: ok_status(), connection: fresh_connection() },
            s2,
            false,
            name,
        ) == (
            BufferMove::Advance((18 + decimal_digits(n as nat).len()) as usize),
            ResponseStateV::HasLength {
                status: ok_status(),
                connection: fresh_connection(),
                length: LengthInformation::Length(n),
            },
        ),
{
    let f = content_length_field();
    let d = decimal_digits(n as nat);
    let k = d.len() as int;
    lemma_digits_value(n as nat);
    law_decimal_reads_back(n);
    assert forall|i: int| 0 <= i < 16 implies s2[i] == #[trigger] f[i] by {}
    assert forall|j: int| 0 <= j < k implies s2[16 + j] == #[trigger] d[j] by {}
    assert(s2[16 + k] == 13 && s2[17 + k] == 10);
    assert forall|j: int| 0 <= j < 14 implies in_class(CharClass::Token, #[trigger] s2[j]) by {}
    lemma_span_run(s2, 0, 14, CharClass::Token);
    assert(s2.subrange(14, 15) =~= colon_lit());
    assert(s2[16] == d[0]);
    lemma_span_run(s2, 15, 16, CharClass::Space);
    assert forall|j: int| 16 <= j < 16 + k implies in_class(CharClass::HeaderValue, #[trigger] s2[j]) by {
        assert(s2[16 + (j - 16)] == d[j - 16]);
    }
    lemma_span_run(s2, 16, 16 + k, CharClass::HeaderValue);
    assert(s2.subrange(16 + k, 18 + k) =~= crlf_lit());
    let h = HeaderRange { name_end: 14, value_start: 16, value_end: (16 + k) as usize };
    assert(spec_message_header(s2) == ParseResult::Done((18 + k) as usize, h));
    let cl = s2.subrange(0, 14);
    assert(header_name(s2, h) == cl);
    assert(header_value_bytes(s2, h) =~= d);
    assert(eq_no_case(cl, kw(Keyword::ContentLength)));
    assert(!eq_no_case(cl, kw(Keyword::Host)));
    assert(!spec_should_delete(cl, d, name));
}

proof fn lemma_parse_head_end(s3: Seq<u8>, n: usize, body: Seq<u8>, name: Seq<u8>)
    requires
        s3 == seq![13u8, 10u8] + body,
    ensures
        spec_parse_response(
            ResponseStateV::HasLength {
                status: ok_status(),
                connection: fresh_connection(),
                length: LengthInformation::Length(n),
            },
            s3,
            false,
            name,
        ) == (
            BufferMove::Advance(2),
            ResponseStateV::ResponseWithBody { status: ok_status(), connection: fresh_connection(), length: n },
        ),
{
    assert(s3[0] == 13);
    assert(s3.subrange(0, 2) =~= crlf_lit());
}

/// The response that `http_response` writes for `content` is read by the
/// response parser, one step at a time, as a `200 OK` status line, then a
/// `Content-Length` header giving the content's length in bytes, then the
/// end of the head, after which exactly the content's bytes remain: a
/// response whose body is the content.
pub proof fn law_response_reads_back(content: Seq<char>, name: Seq<u8>)
    requires
        encode_utf8(response_text(content, encode_utf8(content).len())).len() <= usize::MAX,
    ensures
        ({
            let b = encode_utf8(response_text(content, encode_utf8(content).len()));
            let n = encode_utf8(content).len() as usize;
            let k = decimal_digits(n as nat).len() as int;
            let status = ok_status();
            let conn = fresh_connection();
            &&& spec_parse_response(ResponseStateV::Initial, b, false, name) == (
                BufferMove::Advance(17),
                ResponseStateV::HasStatusLine { status, connection: conn },
            )
            &&& spec_parse_response(
                ResponseStateV::HasStatusLine { status, connection: conn },
                b.subrange(17, b.len() as int),
                false,
                name,
            ) == (
                BufferMove::Advance((18 + k) as usize),
                ResponseStateV::HasLength { status, connection: conn, length: LengthInformation::Length(n) },
            )
            &&& spec_parse_response(
                ResponseStateV::HasLength { status, connection: conn, length: LengthInformation::Length(n) },
                b.subrange(35 + k, b.len() as int),
                false,
                name,
            ) == (
                BufferMove::Advance(2),
                ResponseStateV::ResponseWithBody { status, connection: conn, length: n },
            )
            &&& b.subrange(37 + k, b.len() as int) == encode_utf8(content)
        }),
{
    let c = encode_utf8(content);
    let len = c.len();
    let n = len as usize;
    let d = decimal_digits(len);
    let k = d.len() as int;
    lemma_response_bytes(content, len);
    let b = encode_utf8(response_text(content, len));
    assert(response_start().subrange(17, 33) =~= content_length_field());
    lemma_response_parts(response_start(), d, c);
    lemma_parse_status(b, d + (seq![13u8, 10u8] + seq![13u8, 10u8]) + c, name);
    lemma_parse_length(b.subrange(17, b.len() as int), n, seq![13u8, 10u8] + c, name);
    lemma_parse_head_end(b.subrange(35 + k, b.len() as int), n, c, name);
}

proof fn lemma_response_parts(p: Seq<u8>, d: Seq<u8>, c: Seq<u8>)
    requires
        p.len() == 33,
        p.subrange(17, 33) == content_length_field(),
    ensures
        ({
            let crlf = seq![13u8, 10u8];
            let b = p + d + (crlf + crlf) + c;
            &&& b == p + (d + (crlf + crlf) + c)
            &&& b.subrange(17, b.len() as int) == content_length_field() + d + crlf + (crlf + c)
            &&& b.subrange(35 + d.len() as int, b.len() as int) == crlf + c
            &&& b.subrange(37 + d.len() as int, b.len() as int) == c
        }),
{
    let crlf = seq![13u8, 10u8];
    let b = p + d + (crlf + crlf) + c;
    assert(b =~= p + (d + (crlf + crlf) + c));
    assert(b.subrange(17, b.len() as int) =~= p.subrange(17, 33) + d + crlf + (crlf + c));
    assert(b.subrange(35 + d.len() as int, b.len() as int) =~= crlf + c);
    assert(b.subrange(37 + d.len() as int, b.len() as int) =~= c);
}

/// ` HTTP/1.1` CRLF
pub open spec fn request_version_end() -> Seq<u8> {
    seq![32u8, 72u8, 84u8, 84u8, 80u8, 47u8, 49u8, 46u8, 49u8, 13u8, 10u8]
}

/// `Host: localhost` CRLF
pub open spec fn host_field() -> Seq<u8> {
    seq![72u8, 111u8, 115u8, 116u8, 58u8, 32u8, 108u8, 111u8, 99u8, 97u8, 108u8, 104u8, 111u8, 115u8, 116u8, 13u8, 10u8]
}

/// `Connection: keep-alive` CRLF
pub open spec fn keep_alive_field() -> Seq<u8> {
    seq![
        67u8, 111u8, 110u8, 110u8, 101u8, 99u8, 116u8, 105u8, 111u8, 110u8, 58u8, 32u8,
        107u8, 101u8, 101u8, 112u8, 45u8, 97u8, 108u8, 105u8, 118u8, 101u8, 13u8, 10u8,
    ]
}

/// The bytes of a request that `http_request` writes.
proof fn lemma_request_bytes(mb: Seq<u8>, ub: Seq<u8>, content: Seq<char>)
    requires
        is_ascii_bytes(mb),
        is_ascii_bytes(ub),
    ensures
        encode_utf8(request_text(ascii_chars(mb), ascii_chars(ub), content)) == mb + seq![32u8] + ub
            + request_version_end() + (host_field() + (keep_alive_field() + (seq![13u8, 10u8]
            + encode_utf8(content)))),
{
    let sp = " ";
    let tail = " HTTP/1.1\r\nHost: localhost\r\nConnection: keep-alive\r\n\r\n";
    reveal_strlit(" ");
    reveal_strlit(" HTTP/1.1\r\nHost: localhost\r\nConnection: keep-alive\r\n\r\n");
    let tb = request_version_end() + host_field() + keep_alive_field() + seq![13u8, 10u8];
    assert(sp@ =~= ascii_chars(seq![32u8]));
    assert(tail@ =~= ascii_chars(tb));
    crate::text::lemma_ascii_encoding(seq![32u8]);
    crate::text::lemma_ascii_encoding(tb);
    crate::text::lemma_ascii_encoding(mb);
    crate::text::lemma_ascii_encoding(ub);
    let m = ascii_chars(mb);
    let u = ascii_chars(ub);
    lemma_encode_concat(m, sp@);
    lemma_encode_concat(m + sp@, u);
    lemma_encode_concat(m + sp@ + u, tail@);
    lemma_encode_concat(m + sp@ + u + tail@, content);
    assert(mb + seq![32u8] + ub + tb + encode_utf8(content) =~= mb + seq![32u8] + ub
        + request_version_end() + (host_field() + (keep_alive_field() + (seq![13u8, 10u8]
        + encode_utf8(content)))));
}

/// A method: a non-empty token.
pub open spec fn is_method_bytes(mb: Seq<u8>) -> bool {
    mb.len() > 0 && forall|i: int| 0 <= i < mb.len() ==> in_class(CharClass::Token, #[trigger] mb[i])
}

/// A request target: non-empty visible ASCII, bytes 33 to 126.
pub open spec fn is_target_bytes(ub: Seq<u8>) -> bool {
    ub.len() > 0 && forall|i: int| 0 <= i < ub.len() ==> 33 <= #[trigger] ub[i] <= 126
}

proof fn lemma_parse_request_line(b: Seq<u8>, mb: Seq<u8>, ub: Seq<u8>, rest: Seq<u8>)
    requires
        is_method_bytes(mb),
        is_target_bytes(ub),
        b == mb + seq![32u8] + ub + request_version_end() + rest,
        b.len() <= usize::MAX,
    ensures
        spec_request_line(b) == ParseResult::Done(
            (mb.len() + ub.len() + 12) as usize,
            RequestLineRange {
                method_end: mb.len() as usize,
                uri_start: (mb.len() + 1) as usize,
                uri_end: (mb.len() + 1 + ub.len()) as usize,
                version: Version::V11,
            },
        ),
{
    let m = mb.len() as int;
    let u = ub.len() as int;
    let v = request_version_end();
    assert forall|i: int| 0 <= i < m implies b[i] == #[trigger] mb[i] by {}
    assert(b[m] == 32);
    assert forall|i: int| 0 <= i < u implies b[m + 1 + i] == #[trigger] ub[i] by {}
    assert forall|i: int| 0 <= i < 11 implies b[m + 1 + u + i] == #[trigger] v[i] by {}
    assert forall|j: int| 0 <= j < m implies in_class(CharClass::Token, #[trigger] b[j]) by {
        assert(b[j] == mb[j]);
    }
    lemma_span_run(b, 0, m, CharClass::Token);
    assert(b.subrange(m, m + 1) =~= space_lit());
    assert forall|j: int| m + 1 <= j < m + 1 + u implies in_class(CharClass::UriChar, #[trigger] b[j]) by {
        assert(b[m + 1 + (j - m - 1)] == ub[j - m - 1]);
    }
    assert(b[m + 1 + u] == 32);
    lemma_span_run(b, m + 1, m + 1 + u, CharClass::UriChar);
    assert(b.subrange(m + 1 + u, m + 2 + u) =~= space_lit());
    assert(b.subrange(m + 2 + u, m + 9 + u) =~= http1_lit());
    assert(b[m + 9 + u] == 49);
    assert(b.subrange(m + 10 + u, m + 12 + u) =~= crlf_lit());
}

proof fn lemma_host_header(s: Seq<u8>, rest: Seq<u8>)
    requires
        s == host_field() + rest,
    ensures
        spec_message_header(s) == ParseResult::Done(17, HeaderRange { name_end: 4, value_start: 6, value_end: 15 }),
{
    let f = host_field();
    assert forall|i: int| 0 <= i < 17 implies s[i] == #[trigger] f[i] by {}
    assert forall|j: int| 0 <= j < 4 implies in_class(CharClass::Token, #[trigger] s[j]) by {}
    lemma_span_run(s, 0, 4, CharClass::Token);
    assert(s.subrange(4, 5) =~= colon_lit());
    lemma_span_run(s, 5, 6, CharClass::Space);
    assert forall|j: int| 6 <= j < 15 implies in_class(CharClass::HeaderValue, #[trigger] s[j]) by {}
    lemma_span_run(s, 6, 15, CharClass::HeaderValue);
    assert(s.subrange(15, 17) =~= crlf_lit());
}

proof fn lemma_keep_alive_header(s: Seq<u8>, rest: Seq<u8>)
    requires
        s == keep_alive_field() + rest,
    ensures
        spec_message_header(s) == ParseResult::Done(24, HeaderRange { name_end: 10, value_start: 12, value_end: 22 }),
{
    let f = keep_alive_field();
    assert forall|i: int| 0 <= i < 24 implies s[i] == #[trigger] f[i] by {}
    assert forall|j: int| 0 <= j < 10 implies in_class(CharClass::Token, #[trigger] s[j]) by {}
    lemma_span_run(s, 0, 10, CharClass::Token);
    assert(s.subrange(10, 11) =~= colon_lit());
    lemma_span_run(s, 11, 12, CharClass::Space);
    assert forall|j: int| 12 <= j < 22 implies in_class(CharClass::HeaderValue, #[trigger] s[j]) by {}
    lemma_span_run(s, 12, 22, CharClass::HeaderValue);
    assert(s.subrange(22, 24) =~= crlf_lit());
}

proof fn lemma_empty_line(s: Seq<u8>, rest: Seq<u8>)
    requires
        s == seq![13u8, 10u8] + rest,
    ensures
        spec_message_header(s) is Error,
        spec_crlf(s) == ParseResult::Done(2, ()),
{
    assert(s[0] == 13);
    assert(s.subrange(0, 2) =~= crlf_lit());
}

/// The headers of a request that `http_request` writes, read from `e`.
proof fn lemma_request_headers(b: Seq<u8>, e: usize, request: RequestLine, c: Seq<u8>)
    requires
        e + 43 <= b.len() <= usize::MAX,
        b.subrange(e as int, b.len() as int) == host_field() + (keep_alive_field() + (seq![13u8, 10u8] + c)),
    ensures
        parse_headers(request, Seq::empty(), e, b) == (RequestStateV::ParsingDone {
            request,
            headers: seq![
                header_at(b, e, HeaderRange { name_end: 4, value_start: 6, value_end: 15 }),
                header_at(b, (e + 17) as usize, HeaderRange { name_end: 10, value_start: 12, value_end: 22 }),
            ],
            index: (e + 43) as usize,
            data: Slice { start: (e + 41) as usize, len: 2, meta: Meta::HeadersEnd },
        }),
{
    let s0 = b.subrange(e as int, b.len() as int);
    let s1 = b.subrange(e + 17, b.len() as int);
    let s2 = b.subrange(e + 41, b.len() as int);
    assert(s1 =~= keep_alive_field() + (seq![13u8, 10u8] + c)) by {
        assert(s1 =~= s0.subrange(17, s0.len() as int));
    }
    assert(s2 =~= seq![13u8, 10u8] + c) by {
        assert(s2 =~= s0.subrange(41, s0.len() as int));
    }
    lemma_host_header(s0, keep_alive_field() + (seq![13u8, 10u8] + c));
    lemma_keep_alive_header(s1, seq![13u8, 10u8] + c);
    lemma_empty_line(s2, c);
    let h1 = header_at(b, e, HeaderRange { name_end: 4, value_start: 6, value_end: 15 });
    let h2 = header_at(b, (e + 17) as usize, HeaderRange { name_end: 10, value_start: 12, value_end: 22 });
    assert(parse_headers(request, Seq::empty(), e, b) == parse_headers(request, seq![h1], (e + 17) as usize, b));
    assert(seq![h1].push(h2) =~= seq![h1, h2]);
    assert(parse_headers(request, seq![h1], (e + 17) as usize, b) == parse_headers(request, seq![h1, h2], (e + 41) as usize, b));
}

/// `localhost`
pub open spec fn localhost() -> Seq<u8> {
    seq![108u8, 111u8, 99u8, 97u8, 108u8, 104u8, 111u8, 115u8, 116u8]
}

pub(crate) proof fn lemma_ascii_class(v: Seq<u8>, c: CharClass)
    requires
        c is Token || c is UriChar,
        forall|i: int| 0 <= i < v.len() ==> in_class(c, #[trigger] v[i]),
    ensures
        is_ascii_bytes(v),
        valid_utf8(v),
        decode_utf8(v) == ascii_chars(v),
{
    assert forall|i: int| 0 <= i < v.len() implies #[trigger] v[i] < 128 by {
        assert(in_class(c, v[i]));
    }
    crate::text::lemma_ascii_utf8(v);
}

/// What the headers of a request that `http_response` writes tell.
proof fn lemma_request_finish(b: Seq<u8>, mb: Seq<u8>, ub: Seq<u8>, e: usize, c: Seq<u8>)
    requires
        is_method_bytes(mb),
        is_target_bytes(ub),
        e == mb.len() + ub.len() + 12,
        e + 43 <= b.len() <= usize::MAX,
        b.subrange(0, mb.len() as int) == mb,
        b.subrange(mb.len() + 1 as int, mb.len() + 1 + ub.len() as int) == ub,
        b.subrange(e as int, b.len() as int) == host_field() + (keep_alive_field() + (seq![13u8, 10u8] + c)),
    ensures
        spec_method(mb) is Some,
        ({
            let request = RequestLine {
                method: Slice { start: 0, len: mb.len() as usize, meta: Meta::Method },
                uri: Slice { start: (mb.len() + 1) as usize, len: ub.len() as usize, meta: Meta::Uri },
                version: Version::V11,
            };
            let headers = seq![
                header_at(b, e, HeaderRange { name_end: 4, value_start: 6, value_end: 15 }),
                header_at(b, (e + 17) as usize, HeaderRange { name_end: 10, value_start: 12, value_end: 22 }),
            ];
            spec_finish_request(request, headers, b) == Some(
                RequestStateV::Request(
                    RRequestLineV { method: spec_method(mb)->0, uri: ascii_chars(ub), version: Version::V11 },
                    fresh_connection(),
                    ascii_chars(localhost()),
                ),
            )
        }),
{
    let s0 = b.subrange(e as int, b.len() as int);
    let hf = host_field();
    let kf = keep_alive_field();
    assert forall|i: int| 0 <= i < 17 implies s0[i] == #[trigger] hf[i] by {}
    assert forall|i: int| 0 <= i < 24 implies s0[17 + i] == #[trigger] kf[i] by {}
    let host_name = b.subrange(e as int, e + 4);
    assert(host_name =~= s0.subrange(0, 4));
    assert(host_name =~= hf.subrange(0, 4));
    assert(eq_no_case(host_name, kw(Keyword::Host)));
    let host_value = b.subrange(e + 6, e + 15);
    assert(host_value =~= localhost());
    let conn_name = b.subrange(e + 17, e + 27);
    assert(conn_name =~= kf.subrange(0, 10));
    assert(eq_no_case(conn_name, kw(Keyword::Connection)));
    assert(!eq_no_case(conn_name, kw(Keyword::Host)));
    assert(!eq_no_case(conn_name, kw(Keyword::ContentLength)));
    assert(!eq_no_case(conn_name, kw(Keyword::TransferEncoding)));
    assert forall|i: int| 0 <= i < 9 implies in_class(CharClass::Token, #[trigger] localhost()[i]) by {}
    lemma_ascii_class(localhost(), CharClass::Token);
    lemma_ascii_class(mb, CharClass::Token);
    lemma_ascii_class(ub, CharClass::UriChar);
    let h1 = header_at(b, e, HeaderRange { name_end: 4, value_start: 6, value_end: 15 });
    let h2 = header_at(b, (e + 17) as usize, HeaderRange { name_end: 10, value_start: 12, value_end: 22 });
    let headers = seq![h1, h2];
    assert(h1.name.meta == Meta::HeaderName(HeaderName::Host));
    assert(h2.name.meta == Meta::HeaderName(HeaderName::Connection));
    assert(spec_slice_data(h1.value, b) == Some(localhost()));
    let init = FinishAcc { host: None, length: None, ok: true };
    assert(headers.drop_last() =~= seq![h1]);
    assert(seq![h1].drop_last() =~= Seq::<Header>::empty());
    let a1 = finish_header(init, h1, b);
    assert(a1 == FinishAcc { host: Some(ascii_chars(localhost())), length: None, ok: true });
    assert(finish_headers(Seq::<Header>::empty(), b) == init);
    assert(seq![h1].last() == h1);
    assert(finish_headers(seq![h1], b) == finish_header(finish_headers(seq![h1].drop_last(), b), h1, b));
    assert(finish_headers(seq![h1], b) == a1);
    assert(finish_headers(headers, b) == a1);
    let request = RequestLine {
        method: Slice { start: 0, len: mb.len() as usize, meta: Meta::Method },
        uri: Slice { start: (mb.len() + 1) as usize, len: ub.len() as usize, meta: Meta::Uri },
        version: Version::V11,
    };
    assert(spec_slice_data(request.method, b) == Some(mb));
    assert(spec_slice_data(request.uri, b) == Some(ub));
}

/// The request that `http_request` writes for a method (a token) and a
/// target (visible ASCII) is read by the request parser as a complete head:
/// a request for that target with that method, for the host `localhost`,
/// without a body length, whose head ends after its empty line; the content
/// after the head is left to be forwarded as it is.
#[verifier::spinoff_prover]
#[verifier::rlimit(40)]
pub proof fn law_request_reads_back(mb: Seq<u8>, ub: Seq<u8>, content: Seq<char>)
    requires
        is_method_bytes(mb),
        is_target_bytes(ub),
        encode_utf8(request_text(ascii_chars(mb), ascii_chars(ub), content)).len() <= usize::MAX,
    ensures
        spec_method(mb) is Some,
        spec_parse_request_until_stop(
            RequestStateV::Initial,
            encode_utf8(request_text(ascii_chars(mb), ascii_chars(ub), content)),
        ) == Some(
            (
                RequestStateV::Request(
                    RRequestLineV { method: spec_method(mb)->0, uri: ascii_chars(ub), version: Version::V11 },
                    fresh_connection(),
                    ascii_chars(localhost()),
                ),
                Some((mb.len() + ub.len() + 55) as usize),
            ),
        ),
{
    let c = encode_utf8(content);
    let m = mb.len() as int;
    let u = ub.len() as int;
    let rest = host_field() + (keep_alive_field() + (seq![13u8, 10u8] + c));
    assert forall|i: int| 0 <= i < m implies #[trigger] mb[i] < 128 by {
        assert(in_class(CharClass::Token, mb[i]));
    }
    assert forall|i: int| 0 <= i < u implies #[trigger] ub[i] < 128 by {
        assert(in_class(CharClass::UriChar, ub[i]));
    }
    lemma_request_bytes(mb, ub, content);
    let b = encode_utf8(request_text(ascii_chars(mb), ascii_chars(ub), content));
    assert(b == mb + seq![32u8] + ub + request_version_end() + rest);
    lemma_parse_request_line(b, mb, ub, rest);
    let e = (m + u + 12) as usize;
    assert(b.subrange(e as int, b.len() as int) =~= rest);
    assert(b.subrange(0, m) =~= mb);
    assert(b.subrange(m + 1, m + 1 + u) =~= ub);
    let l = RequestLineRange {
        method_end: m as usize,
        uri_start: (m + 1) as usize,
        uri_end: (m + 1 + u) as usize,
        version: Version::V11,
    };
    let request = spec_request_line_of(l);
    lemma_request_headers(b, e, request, c);
    lemma_request_finish(b, mb, ub, e, c);
}

} // verus!
