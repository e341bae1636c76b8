//! What the parsers decide, stated on the bytes they read and on the fields
//! of the states they give, over all inputs.
use vstd::prelude::*;
use vstd::utf8::{decode_utf8, valid_utf8};
use crate::chunk::spec_chunk_parse;
use crate::grammar::{
    crlf_lit, eq_no_case, hex_value, http1_lit, in_class, list_has, space_lit, spec_chunk_header,
    spec_crlf, spec_message_header, spec_request_line, CharClass, ParseResult, RequestLineRange,
};
use crate::header::{spec_method, spec_request_line_of, spec_to_rrequest_line};
use crate::header_value::spec_header_value;
use crate::http_utils::{is_method_bytes, is_target_bytes, lemma_ascii_class, lemma_span_run};
use crate::keyword::{kw, Keyword};
use crate::request::RequestStateV;
use crate::response::{spec_parse_response, spec_validate_response_header, ResponseStateV};
use crate::text::ascii_chars;
use crate::types::{BufferMove, Chunk, ConnectionV, RRequestLineV, RStatusLineV, Version};

verus! {

/// The empty line that ends a response head read up to its status line ends
/// the message there for a `HEAD` request and for the statuses without a body
/// (1xx, 204 and 304); any other response has a body that lasts until the
/// backend closes the connection.
pub proof fn law_end_of_head_without_length(
    status: RStatusLineV,
    connection: ConnectionV,
    s: Seq<u8>,
    is_head: bool,
    name: Seq<u8>,
)
    requires
        s.len() >= 2,
        s[0] == 13,
        s[1] == 10,
    ensures
        spec_parse_response(ResponseStateV::HasStatusLine { status, connection }, s, is_head, name) == (
            BufferMove::Advance(2),
            if is_head || 100 <= status.status <= 199 || status.status == 204 || status.status == 304 {
                ResponseStateV::Response { status, connection }
            } else {
                ResponseStateV::ResponseWithBodyCloseDelimited { status, connection, back_closed: false }
            },
        ),
{
    assert(s.subrange(0, 2) =~= crlf_lit());
    assert(spec_message_header(s) is Error);
    assert(spec_crlf(s) == ParseResult::Done(2, ()));
}

/// The keep-alive setting a `Connection` header leaves on a response that
/// has read its status line: `keep-alive` among its values keeps the
/// connection open, otherwise `close` among them closes it, and otherwise
/// the setting stays; `upgrade` among them records an upgrade.
pub proof fn law_connection_header(
    status: RStatusLineV,
    connection: ConnectionV,
    header_name: Seq<u8>,
    v: Seq<u8>,
    is_head: bool,
)
    requires
        eq_no_case(header_name, kw(Keyword::Connection)),
    ensures
        spec_validate_response_header(
            ResponseStateV::HasStatusLine { status, connection },
            spec_header_value(header_name, v),
            is_head,
        ) == (ResponseStateV::HasStatusLine {
            status,
            connection: ConnectionV {
                keep_alive: if list_has(v, 0, kw(Keyword::KeepAlive)) {
                    Some(true)
                } else if list_has(v, 0, kw(Keyword::Close)) {
                    Some(false)
                } else {
                    connection.keep_alive
                },
                has_upgrade: connection.has_upgrade || list_has(v, 0, kw(Keyword::Upgrade)),
                upgrade: connection.upgrade,
                continues: connection.continues,
            },
        }),
{
    assert(!eq_no_case(header_name, kw(Keyword::Host)));
    assert(!eq_no_case(header_name, kw(Keyword::ContentLength)));
    assert(!eq_no_case(header_name, kw(Keyword::TransferEncoding)));
}

/// The worth of one hexadecimal digit: `0`..`9`, then `a`..`f` and `A`..`F`
/// for 10 to 15.
pub open spec fn hex_digit_worth(b: u8) -> nat {
    if 48 <= b <= 57 {
        (b - 48) as nat
    } else if 65 <= b <= 70 {
        (b - 55) as nat
    } else if 97 <= b <= 102 {
        (b - 87) as nat
    } else {
        0
    }
}

/// The number that hexadecimal digits write, most significant first.
pub open spec fn hex_number(d: Seq<u8>) -> nat
    decreases d.len(),
{
    if d.len() == 0 {
        0
    } else {
        hex_number(d.drop_last()) * 16 + hex_digit_worth(d.last())
    }
}

/// Bytes that are all hexadecimal digits.
pub open spec fn all_hex(d: Seq<u8>) -> bool {
    forall|i: int| 0 <= i < d.len() ==> (48 <= #[trigger] d[i] <= 57 || 65 <= d[i] <= 70 || 97 <= d[i] <= 102)
}

proof fn lemma_hex_number(d: Seq<u8>)
    requires
        all_hex(d),
    ensures
        hex_value(d) == hex_number(d),
    decreases d.len(),
{
    if d.len() > 0 {
        assert(d.drop_last().len() == d.len() - 1);
        assert forall|i: int| 0 <= i < d.drop_last().len() implies (48 <= #[trigger] d.drop_last()[i] <= 57
            || 65 <= d.drop_last()[i] <= 70 || 97 <= d.drop_last()[i] <= 102) by {
            assert(d.drop_last()[i] == d[i]);
        }
        lemma_hex_number(d.drop_last());
        let b = d.last();
        assert(48 <= d[d.len() - 1] <= 57 || 65 <= d[d.len() - 1] <= 70 || 97 <= d[d.len() - 1] <= 102);
        assert(crate::grammar::digit_value(b) == hex_digit_worth(b));
    }
}

proof fn lemma_chunk_size_line_at(p: Seq<u8>, d: Seq<u8>, rest: Seq<u8>)
    requires
        d.len() > 0,
        all_hex(d),
        hex_number(d) <= usize::MAX,
        (p + d + seq![13u8, 10u8] + rest).len() <= usize::MAX,
    ensures
        spec_chunk_header(p + d + seq![13u8, 10u8] + rest, p.len() as int) == ParseResult::Done(
            (p.len() + d.len() + 2) as usize,
            hex_number(d) as usize,
        ),
{
    let s = p + d + seq![13u8, 10u8] + rest;
    let o = p.len() as int;
    let n = d.len() as int;
    assert forall|j: int| o <= j < o + n implies in_class(CharClass::Hex, #[trigger] s[j]) by {
        assert(s[j] == d[j - o]);
    }
    assert(s[o + n] == 13);
    lemma_span_run(s, o, o + n, CharClass::Hex);
    assert(s.subrange(o, o + n) =~= d);
    lemma_hex_number(d);
    assert(s.subrange(o + n, o + n + 2) =~= crlf_lit());
}

/// A chunk size line — hexadecimal digits, then CRLF — gives the number the
/// digits write, and ends after the CRLF.
pub proof fn law_chunk_size_line(d: Seq<u8>, rest: Seq<u8>)
    requires
        d.len() > 0,
        all_hex(d),
        hex_number(d) <= usize::MAX,
        (d + seq![13u8, 10u8] + rest).len() <= usize::MAX,
    ensures
        spec_chunk_header(d + seq![13u8, 10u8] + rest, 0) == ParseResult::Done(
            (d.len() + 2) as usize,
            hex_number(d) as usize,
        ),
{
    let e = Seq::<u8>::empty();
    assert(e + d =~= d);
    lemma_chunk_size_line_at(e, d, rest);
}

/// After the data of a chunk, its CRLF and the next chunk size line are
/// handed over with the next chunk's data; a size of zero is the last chunk.
pub proof fn law_next_chunk(d: Seq<u8>, rest: Seq<u8>)
    requires
        d.len() > 0,
        all_hex(d),
        hex_number(d) <= usize::MAX,
        (seq![13u8, 10u8] + d + seq![13u8, 10u8] + rest).len() <= usize::MAX,
    ensures
        spec_chunk_parse(Chunk::Copying, seq![13u8, 10u8] + d + seq![13u8, 10u8] + rest) == if hex_number(d)
            == 0 {
            (BufferMove::Advance((d.len() + 4) as usize), Chunk::CopyingLastHeader)
        } else if d.len() + 4 + hex_number(d) <= usize::MAX {
            (BufferMove::Advance((d.len() + 4 + hex_number(d)) as usize), Chunk::Copying)
        } else {
            (BufferMove::Stay, Chunk::Error)
        },
{
    let c = seq![13u8, 10u8];
    let s = c + d + seq![13u8, 10u8] + rest;
    lemma_chunk_size_line_at(c, d, rest);
    assert(s.subrange(0, 2) =~= crlf_lit());
    assert(spec_crlf(s) is Done);
}

/// After the last chunk, an empty line ends the body.
pub proof fn law_body_end(rest: Seq<u8>)
    ensures
        spec_chunk_parse(Chunk::CopyingLastHeader, seq![13u8, 10u8] + rest) == (
            BufferMove::Advance(2),
            Chunk::Ended,
        ),
{
    let s = seq![13u8, 10u8] + rest;
    assert(s.subrange(0, 2) =~= crlf_lit());
}

/// At the start of a chunked body, a chunk size line of `n` bytes of data
/// hands over the line and the `n` bytes; a size of zero is the last chunk.
#[verifier::rlimit(40)]
pub proof fn law_first_chunk(d: Seq<u8>, rest: Seq<u8>)
    requires
        d.len() > 0,
        all_hex(d),
        hex_number(d) <= usize::MAX,
        (d + seq![13u8, 10u8] + rest).len() <= usize::MAX,
    ensures
        spec_chunk_parse(Chunk::Initial, d + seq![13u8, 10u8] + rest) == if hex_number(d) == 0 {
            (BufferMove::Advance((d.len() + 2) as usize), Chunk::CopyingLastHeader)
        } else if d.len() + 2 + hex_number(d) <= usize::MAX {
            (BufferMove::Advance((d.len() + 2 + hex_number(d)) as usize), Chunk::Copying)
        } else {
            (BufferMove::Stay, Chunk::Error)
        },
{
    let s = d + seq![13u8, 10u8] + rest;
    law_chunk_size_line(d, rest);
    assert(spec_chunk_header(s, 0) == ParseResult::Done((d.len() + 2) as usize, hex_number(d) as usize));
    assert(spec_chunk_parse(Chunk::Initial, s) == crate::chunk::after_chunk_header(
        (d.len() + 2) as usize,
        hex_number(d) as usize,
    ));
}

/// A request keeps the client connection open as its connection says where
/// it says so; otherwise an HTTP/1.1 request keeps it open and any other
/// state closes it.
pub proof fn law_request_keep_alive(state: RequestStateV)
    ensures
        state.should_keep_alive() == match state.connection() {
            Some(ConnectionV { keep_alive: Some(k), .. }) => k,
            _ => match state.request_line() {
                Some(rl) => rl.version == Version::V11,
                None => false,
            },
        },
{
}

/// A response keeps the backend connection open as its connection says
/// where it says so; otherwise an HTTP/1.1 response keeps it open and any
/// other state closes it.
pub proof fn law_response_keep_alive(state: ResponseStateV)
    ensures
        state.should_keep_alive() == match state.connection() {
            Some(ConnectionV { keep_alive: Some(k), .. }) => k,
            _ => match state.status_line() {
                Some(sl) => sl.version == Version::V11,
                None => false,
            },
        },
{
}

/// `HTTP/1.` followed by the version digit `vd`, then CRLF.
pub open spec fn version_tail(vd: u8) -> Seq<u8> {
    http1_lit() + seq![vd, 13u8, 10u8]
}

/// A request line — a method (a token), a space, a target of visible ASCII
/// (bytes 33 to 126), a space, `HTTP/1.0` or `HTTP/1.1` and CRLF — parses
/// whole, and gives that method, the target's text as the URI, and that
/// version.
pub proof fn law_request_line(mb: Seq<u8>, ub: Seq<u8>, vd: u8, rest: Seq<u8>)
    requires
        is_method_bytes(mb),
        is_target_bytes(ub),
        vd == 48 || vd == 49,
        (mb + seq![32u8] + ub + seq![32u8] + version_tail(vd) + rest).len() <= usize::MAX,
    ensures
        ({
            let b = mb + seq![32u8] + ub + seq![32u8] + version_tail(vd) + rest;
            let version = if vd == 48 { Version::V10 } else { Version::V11 };
            let l = RequestLineRange {
                method_end: mb.len() as usize,
                uri_start: (mb.len() + 1) as usize,
                uri_end: (mb.len() + 1 + ub.len()) as usize,
                version,
            };
            &&& spec_request_line(b) == ParseResult::Done((mb.len() + ub.len() + 12) as usize, l)
            &&& spec_method(mb) is Some
            &&& spec_to_rrequest_line(spec_request_line_of(l), b) == Some(
                RRequestLineV { method: spec_method(mb)->0, uri: ascii_chars(ub), version },
            )
        }),
{
    let b = mb + seq![32u8] + ub + seq![32u8] + version_tail(vd) + rest;
    let m = mb.len() as int;
    let u = ub.len() as int;
    let t = seq![32u8] + version_tail(vd);
    assert(t.len() == 11);
    assert forall|i: int| 0 <= i < m implies b[i] == #[trigger] mb[i] by {}
    assert(b[m] == 32);
    assert forall|i: int| 0 <= i < u implies b[m + 1 + i] == #[trigger] ub[i] by {}
    assert forall|i: int| 0 <= i < 11 implies b[m + 1 + u + i] == #[trigger] t[i] by {}
    assert forall|j: int| 0 <= j < m implies in_class(CharClass::Token, #[trigger] b[j]) by {
        assert(b[j] == mb[j]);
    }
    lemma_span_run(b, 0, m, CharClass::Token);
    assert(b.subrange(m, m + 1) =~= space_lit());
    assert forall|j: int| m + 1 <= j < m + 1 + u implies in_class(CharClass::UriChar, #[trigger] b[j]) by {
        assert(b[m + 1 + (j - m - 1)] == ub[j - m - 1]);
    }
    assert(b[m + 1 + u] == 32);
    lemma_span_run(b, m + 1, m + 1 + u, CharClass::UriChar);
    assert(b.subrange(m + 1 + u, m + 2 + u) =~= space_lit());
    assert(b.subrange(m + 2 + u, m + 9 + u) =~= http1_lit());
    assert(b[m + 9 + u] == vd);
    assert(b.subrange(m + 10 + u, m + 12 + u) =~= crlf_lit());
    assert(b.subrange(0, m) =~= mb);
    assert(b.subrange(m + 1, m + 1 + u) =~= ub);
    lemma_ascii_class(mb, CharClass::Token);
    lemma_ascii_class(ub, CharClass::UriChar);
    assert(valid_utf8(ub) && decode_utf8(ub) == ascii_chars(ub));
}

/// The number that decimal digits write, most significant first.
pub open spec fn decimal_number(d: Seq<u8>) -> nat
    decreases d.len(),
{
    if d.len() == 0 {
        0
    } else {
        decimal_number(d.drop_last()) * 10 + (d.last() - 48) as nat
    }
}

/// Bytes that are all decimal digits.
pub open spec fn all_decimal(d: Seq<u8>) -> bool {
    forall|i: int| 0 <= i < d.len() ==> 48 <= #[trigger] d[i] <= 57
}

proof fn lemma_decimal_number(d: Seq<u8>)
    requires
        all_decimal(d),
    ensures
        crate::grammar::dec_value(d) == decimal_number(d),
    decreases d.len(),
{
    if d.len() > 0 {
        assert forall|i: int| 0 <= i < d.drop_last().len() implies 48 <= #[trigger] d.drop_last()[i] <= 57 by {
            assert(d.drop_last()[i] == d[i]);
        }
        lemma_decimal_number(d.drop_last());
        assert(48 <= d[d.len() - 1] <= 57);
    }
}

/// A `usize` read from bytes, as `Content-Length` values are: one or more
/// decimal digits, after an optional `+`, give the number they write where
/// it fits in a `usize`; anything else is no number.
pub proof fn law_parse_usize(d: Seq<u8>)
    ensures
        ({
            let digits = if d.len() > 0 && d[0] == 43 {
                d.drop_first()
            } else {
                d
            };
            crate::grammar::spec_parse_usize(d) == if digits.len() > 0 && all_decimal(digits)
                && decimal_number(digits) <= usize::MAX {
                Some(decimal_number(digits) as usize)
            } else {
                None::<usize>
            }
        }),
{
    let start: int = if d.len() > 0 && d[0] == 43 { 1 } else { 0 };
    let digits = d.subrange(start, d.len() as int);
    if d.len() > 0 && d[0] == 43 {
        assert(digits =~= d.drop_first());
    } else {
        assert(digits =~= d);
    }
    if start < d.len() {
        crate::grammar::lemma_span(d, start, CharClass::Digit);
        let e = crate::grammar::span(d, start, CharClass::Digit);
        if e < d.len() {
            assert(!(48 <= digits[e - start] <= 57));
        } else {
            assert forall|i: int| 0 <= i < digits.len() implies 48 <= #[trigger] digits[i] <= 57 by {
                assert(in_class(CharClass::Digit, d[start + i]));
            }
            lemma_decimal_number(digits);
        }
    }
}

/// A status line — `HTTP/1.0` or `HTTP/1.1`, a space, three decimal digits,
/// a space, a reason of tabs and visible ASCII with spaces, CRLF — starts a
/// response with that version, the status the digits write and that reason.
pub proof fn law_status_line(vd: u8, a: u8, b: u8, c: u8, reason: Seq<u8>, rest: Seq<u8>, is_head: bool, name: Seq<u8>)
    requires
        vd == 48 || vd == 49,
        48 <= a <= 57,
        48 <= b <= 57,
        48 <= c <= 57,
        forall|i: int| 0 <= i < reason.len() ==> (#[trigger] reason[i] == 9 || 32 <= reason[i] <= 126),
        (http1_lit() + seq![vd, 32u8, a, b, c, 32u8] + reason + seq![13u8, 10u8] + rest).len() <= usize::MAX,
    ensures
        ({
            let s = http1_lit() + seq![vd, 32u8, a, b, c, 32u8] + reason + seq![13u8, 10u8] + rest;
            spec_parse_response(ResponseStateV::Initial, s, is_head, name) == (
                BufferMove::Advance((reason.len() + 15) as usize),
                ResponseStateV::HasStatusLine {
                    status: RStatusLineV {
                        version: if vd == 48 { Version::V10 } else { Version::V11 },
                        status: ((a - 48) * 100 + (b - 48) * 10 + (c - 48)) as u16,
                        reason: ascii_chars(reason),
                    },
                    connection: crate::types::fresh_connection(),
                },
            )
        }),
{
    let s = http1_lit() + seq![vd, 32u8, a, b, c, 32u8] + reason + seq![13u8, 10u8] + rest;
    let r = reason.len() as int;
    let h = http1_lit();
    assert forall|i: int| 0 <= i < 7 implies s[i] == #[trigger] h[i] by {}
    assert(s[7] == vd && s[8] == 32 && s[9] == a && s[10] == b && s[11] == c && s[12] == 32);
    assert forall|i: int| 0 <= i < r implies s[13 + i] == #[trigger] reason[i] by {}
    assert(s[13 + r] == 13 && s[14 + r] == 10);
    assert(s.subrange(0, 7) =~= http1_lit());
    assert(s.subrange(8, 9) =~= space_lit());
    assert(s.subrange(12, 13) =~= space_lit());
    assert forall|j: int| 13 <= j < 13 + r implies in_class(CharClass::HeaderValue, #[trigger] s[j]) by {
        assert(s[13 + (j - 13)] == reason[j - 13]);
    }
    lemma_span_run(s, 13, 13 + r, CharClass::HeaderValue);
    assert(s.subrange(13 + r, 15 + r) =~= crlf_lit());
    assert(s.subrange(13, 13 + r) =~= reason);
}

/// A `Content-Length` header on a response that has read its status line
/// gives the body the length its value writes, after an optional `+` (a
/// `HEAD` response ignores it); a value that is no number makes the
/// response an error.
pub proof fn law_content_length_header(
    status: RStatusLineV,
    connection: ConnectionV,
    header_name: Seq<u8>,
    v: Seq<u8>,
    is_head: bool,
)
    requires
        eq_no_case(header_name, kw(Keyword::ContentLength)),
    ensures
        spec_validate_response_header(
            ResponseStateV::HasStatusLine { status, connection },
            spec_header_value(header_name, v),
            is_head,
        ) == ({
            let digits = if v.len() > 0 && v[0] == 43 {
                v.drop_first()
            } else {
                v
            };
            if digits.len() > 0 && all_decimal(digits) && decimal_number(digits) <= usize::MAX {
                if is_head {
                    ResponseStateV::HasStatusLine { status, connection }
                } else {
                    ResponseStateV::HasLength {
                        status,
                        connection,
                        length: crate::types::LengthInformation::Length(decimal_number(digits) as usize),
                    }
                }
            } else {
                ResponseStateV::HasStatusLine { status, connection }.into_error()
            }
        }),
{
    assert(!eq_no_case(header_name, kw(Keyword::Host)));
    law_parse_usize(v);
}

/// A `Transfer-Encoding` header on a response that has read its status
/// line makes the body chunked where `chunked` is among its values (a
/// `HEAD` response ignores it); other encodings change nothing.
pub proof fn law_transfer_encoding_header(
    status: RStatusLineV,
    connection: ConnectionV,
    header_name: Seq<u8>,
    v: Seq<u8>,
    is_head: bool,
)
    requires
        eq_no_case(header_name, kw(Keyword::TransferEncoding)),
    ensures
        spec_validate_response_header(
            ResponseStateV::HasStatusLine { status, connection },
            spec_header_value(header_name, v),
            is_head,
        ) == if list_has(v, 0, kw(Keyword::Chunked)) && !is_head {
            ResponseStateV::HasLength { status, connection, length: crate::types::LengthInformation::Chunked }
        } else {
            ResponseStateV::HasStatusLine { status, connection }
        },
{
    assert(!eq_no_case(header_name, kw(Keyword::Host)));
    assert(!eq_no_case(header_name, kw(Keyword::ContentLength)));
}

/// Two byte strings are equal up to ASCII case exactly when they have the
/// same length and each pair of bytes is equal or is one letter in its two
/// cases (`A`..`Z` and `a`..`z`, 32 apart).
pub proof fn law_eq_no_case(a: Seq<u8>, b: Seq<u8>)
    ensures
        eq_no_case(a, b) <==> (a.len() == b.len() && forall|i: int|
            0 <= i < a.len() ==> (#[trigger] a[i] == b[i] || (65 <= a[i] <= 90 && b[i] == a[i] + 32) || (97
                <= a[i] <= 122 && a[i] == b[i] + 32))),
{
    if a.len() == b.len() {
        assert forall|i: int| 0 <= i < a.len() implies (crate::grammar::lower(#[trigger] a[i])
            == crate::grammar::lower(b[i]) <==> (a[i] == b[i] || (65 <= a[i] <= 90 && b[i] == a[i] + 32) || (
        97 <= a[i] <= 122 && a[i] == b[i] + 32))) by {}
    }
}

/// Bytes without a comma.
pub open spec fn no_comma(x: Seq<u8>) -> bool {
    forall|i: int| 0 <= i < x.len() ==> #[trigger] x[i] != 44
}

/// Bytes that are all spaces or tabs.
pub open spec fn all_blank(x: Seq<u8>) -> bool {
    forall|i: int| 0 <= i < x.len() ==> (#[trigger] x[i] == 32 || x[i] == 9)
}

proof fn lemma_span_shift(p: Seq<u8>, y: Seq<u8>, j: int, c: CharClass)
    requires
        0 <= j <= y.len(),
    ensures
        crate::grammar::span(p + y, p.len() + j, c) == p.len() + crate::grammar::span(y, j, c),
    decreases y.len() - j,
{
    if j < y.len() {
        assert((p + y)[p.len() + j] == y[j]);
        lemma_span_shift(p, y, j + 1, c);
    }
}

proof fn lemma_skip_shift(p: Seq<u8>, y: Seq<u8>, i: int, e: int)
    requires
        0 <= i <= e <= y.len(),
    ensures
        crate::grammar::skip_spaces(p + y, p.len() + i, p.len() + e) == p.len()
            + crate::grammar::skip_spaces(y, i, e),
    decreases e - i,
{
    if i < e {
        assert((p + y)[p.len() + i] == y[i]);
        lemma_skip_shift(p, y, i + 1, e);
    }
}

proof fn lemma_trim_shift(p: Seq<u8>, y: Seq<u8>, a: int, j: int)
    requires
        0 <= a <= j <= y.len(),
    ensures
        crate::grammar::trim_end(p + y, p.len() + a, p.len() + j) == p.len()
            + crate::grammar::trim_end(y, a, j),
    decreases j - a,
{
    if a < j {
        assert((p + y)[p.len() + j - 1] == y[j - 1]);
        lemma_trim_shift(p, y, a, j - 1);
    }
}

proof fn lemma_list_shift(p: Seq<u8>, y: Seq<u8>, j: int, w: Seq<u8>)
    requires
        0 <= j <= y.len(),
    ensures
        list_has(p + y, p.len() + j, w) == list_has(y, j, w),
    decreases y.len() - j,
{
    let s = p + y;
    crate::grammar::lemma_span(y, j, CharClass::NotComma);
    lemma_span_shift(p, y, j, CharClass::NotComma);
    let e = crate::grammar::span(y, j, CharClass::NotComma);
    lemma_skip_shift(p, y, j, e);
    let a = crate::grammar::skip_spaces(y, j, e);
    lemma_skip_bounds(y, j, e);
    lemma_trim_shift(p, y, a, e);
    let b = crate::grammar::trim_end(y, a, e);
    lemma_trim_bounds(y, a, e);
    assert(s.subrange(p.len() + a, p.len() + b) =~= y.subrange(a, b));
    if e < y.len() {
        lemma_list_shift(p, y, e + 1, w);
    }
}

proof fn lemma_skip_bounds(s: Seq<u8>, i: int, e: int)
    requires
        0 <= i <= e <= s.len(),
    ensures
        i <= crate::grammar::skip_spaces(s, i, e) <= e,
    decreases e - i,
{
    if i < e {
        lemma_skip_bounds(s, i + 1, e);
    }
}

proof fn lemma_trim_bounds(s: Seq<u8>, a: int, j: int)
    requires
        0 <= a <= j <= s.len(),
    ensures
        a <= crate::grammar::trim_end(s, a, j) <= j,
    decreases j - a,
{
    if a < j {
        lemma_trim_bounds(s, a, j - 1);
    }
}

proof fn lemma_skip_prefix(s: Seq<u8>, t: Seq<u8>, i: int, e: int)
    requires
        0 <= i <= e <= s.len(),
        e <= t.len(),
        forall|k: int| i <= k < e ==> s[k] == t[k],
    ensures
        crate::grammar::skip_spaces(s, i, e) == crate::grammar::skip_spaces(t, i, e),
    decreases e - i,
{
    if i < e {
        lemma_skip_prefix(s, t, i + 1, e);
    }
}

proof fn lemma_trim_prefix(s: Seq<u8>, t: Seq<u8>, a: int, j: int)
    requires
        0 <= a <= j <= s.len(),
        j <= t.len(),
        forall|k: int| a <= k < j ==> s[k] == t[k],
    ensures
        crate::grammar::trim_end(s, a, j) == crate::grammar::trim_end(t, a, j),
    decreases j - a,
{
    if a < j {
        lemma_trim_prefix(s, t, a, j - 1);
    }
}

/// In a comma-separated list, an element without commas is found, and the
/// rest of the list after its comma is searched on: a list holds `w` when
/// its first element does or the rest does.
pub proof fn law_list_concat(x: Seq<u8>, y: Seq<u8>, w: Seq<u8>)
    requires
        no_comma(x),
    ensures
        list_has(x + seq![44u8] + y, 0, w) == (list_has(x, 0, w) || list_has(y, 0, w)),
{
    let p = x + seq![44u8];
    let s = p + y;
    let n = x.len() as int;
    assert(x + seq![44u8] + y == s);
    assert forall|k: int| 0 <= k < n implies in_class(CharClass::NotComma, #[trigger] s[k]) by {
        assert(s[k] == x[k]);
    }
    assert(s[n] == 44);
    lemma_span_run(s, 0, n, CharClass::NotComma);
    lemma_span_to_end(x, 0, CharClass::NotComma);
    assert forall|k: int| 0 <= k < n implies s[k] == x[k] by {}
    lemma_skip_prefix(s, x, 0, n);
    lemma_skip_bounds(x, 0, n);
    let a = crate::grammar::skip_spaces(x, 0, n);
    lemma_trim_prefix(s, x, a, n);
    let b = crate::grammar::trim_end(x, a, n);
    lemma_trim_bounds(x, a, n);
    assert(s.subrange(a, b) =~= x.subrange(a, b));
    lemma_list_shift(p, y, 0, w);
}

proof fn lemma_span_to_end(x: Seq<u8>, i: int, c: CharClass)
    requires
        0 <= i <= x.len(),
        forall|k: int| i <= k < x.len() ==> in_class(c, #[trigger] x[k]),
    ensures
        crate::grammar::span(x, i, c) == x.len(),
    decreases x.len() - i,
{
    if i < x.len() {
        lemma_span_to_end(x, i + 1, c);
    }
}

/// A list of one element, without commas and with spaces or tabs around
/// it, holds `w` exactly when the element is `w` up to case.
pub proof fn law_list_element(before: Seq<u8>, x: Seq<u8>, after: Seq<u8>, w: Seq<u8>)
    requires
        all_blank(before),
        all_blank(after),
        no_comma(x),
        x.len() > 0 ==> !(x[0] == 32 || x[0] == 9) && !(x.last() == 32 || x.last() == 9),
    ensures
        list_has(before + x + after, 0, w) == eq_no_case(x, w),
{
    let s = before + x + after;
    let m = before.len() as int;
    let n = x.len() as int;
    let l = s.len() as int;
    assert forall|k: int| 0 <= k < l implies in_class(CharClass::NotComma, #[trigger] s[k]) by {
        if k < m {
            assert(s[k] == before[k]);
        } else if k < m + n {
            assert(s[k] == x[k - m]);
        } else {
            assert(s[k] == after[k - m - n]);
        }
    }
    lemma_span_to_end(s, 0, CharClass::NotComma);
    assert forall|k: int| 0 <= k < m implies in_class(CharClass::Space, #[trigger] s[k]) by {
        assert(s[k] == before[k]);
    }
    assert forall|k: int| m + n <= k < l implies in_class(CharClass::Space, #[trigger] s[k]) by {
        assert(s[k] == after[k - m - n]);
    }
    if n > 0 {
        assert(s[m] == x[0]);
        assert(s[m + n - 1] == x[n - 1]);
        lemma_skip_run(s, 0, m, l);
        lemma_trim_run(s, m, m + n, l);
        assert(s.subrange(m, m + n) =~= x);
    } else {
        lemma_skip_run(s, 0, l, l);
        assert(crate::grammar::trim_end(s, l, l) == l);
        assert(s.subrange(l, l) =~= x);
    }
}

proof fn lemma_skip_run(s: Seq<u8>, i: int, m: int, e: int)
    requires
        0 <= i <= m <= e <= s.len(),
        forall|k: int| i <= k < m ==> in_class(CharClass::Space, #[trigger] s[k]),
        m < e ==> !in_class(CharClass::Space, s[m]),
    ensures
        crate::grammar::skip_spaces(s, i, e) == m,
    decreases m - i,
{
    if i < m {
        lemma_skip_run(s, i + 1, m, e);
    }
}

proof fn lemma_trim_run(s: Seq<u8>, a: int, m: int, j: int)
    requires
        0 <= a <= m <= j <= s.len(),
        forall|k: int| m <= k < j ==> in_class(CharClass::Space, #[trigger] s[k]),
        a < m ==> !in_class(CharClass::Space, s[m - 1]),
    ensures
        crate::grammar::trim_end(s, a, j) == m,
    decreases j - m,
{
    if m < j {
        lemma_trim_run(s, a, m, j - 1);
    }
}

} // verus!
