//! The state machine that parses the head of an HTTP request.
use vstd::prelude::*;
use vstd::utf8::{decode_utf8, valid_utf8};
use crate::grammar::{
    crlf, list_contains, list_has, message_header, parse_usize, request_line, spec_crlf,
    spec_message_header, spec_parse_usize, spec_request_line, HeaderRange, ParseResult,
};
use crate::buffer::HttpBuffer;
use crate::header::{
    spec_header, spec_request_line_of, spec_slice_data, spec_to_rrequest_line, Header, HeaderName,
    Meta, RequestLine, Slice,
};
use crate::keyword::{kw, kw_bytes, Keyword};
use crate::prefix::{lemma_message_header_done, lemma_message_header_ext, lemma_request_line_done, lemma_request_line_ext};
use crate::text::utf8_string;
use crate::response::{opt_connection_view, opt_text_view};
use crate::types::{
    fresh_connection, Chunk, Connection, ConnectionV, LengthInformation, RRequestLine, RRequestLineV,
    Version,
};

verus! {

/// The host a request is for.
pub type Host = String;

/// Where the parsing of a request stands.
#[derive(Debug, Clone, PartialEq)]
pub enum RequestState {
    Initial,
    Error {
        request: Option<RequestLine>,
        headers: Vec<Header>,
        data: Option<Slice>,
        index: usize,
        host: Option<Host>,
        connection: Option<Connection>,
        length: Option<LengthInformation>,
        chunk: Option<Chunk>,
    },
    /// The request line was read; `index` is how far the buffer was parsed.
    Parsing { request: RequestLine, headers: Vec<Header>, index: usize },
    /// The whole head was read; `data` is the empty line that ends it.
    ParsingDone { request: RequestLine, headers: Vec<Header>, data: Slice, index: usize },
    Copying {
        request: Option<RequestLine>,
        headers: Vec<Header>,
        data: Slice,
        index: usize,
        connection: Connection,
        host: Host,
        length: LengthInformation,
    },
    Request(RRequestLine, Connection, Host),
    RequestWithBody(RRequestLine, Connection, Host, usize),
    RequestWithBodyChunks(RRequestLine, Connection, Host, Chunk),
}

/// Mathematical model of a [`RequestState`].
pub enum RequestStateV {
    Initial,
    Error {
        request: Option<RequestLine>,
        headers: Seq<Header>,
        data: Option<Slice>,
        index: usize,
        host: Option<Seq<char>>,
        connection: Option<ConnectionV>,
        length: Option<LengthInformation>,
        chunk: Option<Chunk>,
    },
    Parsing { request: RequestLine, headers: Seq<Header>, index: usize },
    ParsingDone { request: RequestLine, headers: Seq<Header>, data: Slice, index: usize },
    Copying {
        request: Option<RequestLine>,
        headers: Seq<Header>,
        data: Slice,
        index: usize,
        connection: ConnectionV,
        host: Seq<char>,
        length: LengthInformation,
    },
    Request(RRequestLineV, ConnectionV, Seq<char>),
    RequestWithBody(RRequestLineV, ConnectionV, Seq<char>, usize),
    RequestWithBodyChunks(RRequestLineV, ConnectionV, Seq<char>, Chunk),
}

impl View for RequestState {
    type V = RequestStateV;

    open spec fn view(&self) -> RequestStateV {
        match self {
            RequestState::Initial => RequestStateV::Initial,
            RequestState::Error { request, headers, data, index, host, connection, length, chunk } =>
                RequestStateV::Error {
                request: *request,
                headers: headers@,
                data: *data,
                index: *index,
                host: opt_text_view(*host),
                connection: opt_connection_view(*connection),
                length: *length,
                chunk: *chunk,
            },
            RequestState::Parsing { request, headers, index } => RequestStateV::Parsing {
                request: *request,
                headers: headers@,
                index: *index,
            },
            RequestState::ParsingDone { request, headers, data, index } => RequestStateV::ParsingDone {
                request: *request,
                headers: headers@,
                data: *data,
                index: *index,
            },
            RequestState::Copying { request, headers, data, index, connection, host, length } =>
                RequestStateV::Copying {
                request: *request,
                headers: headers@,
                data: *data,
                index: *index,
                connection: connection@,
                host: host@,
                length: *length,
            },
            RequestState::Request(rl, c, h) => RequestStateV::Request(rl@, c@, h@),
            RequestState::RequestWithBody(rl, c, h, l) => RequestStateV::RequestWithBody(rl@, c@, h@, *l),
            RequestState::RequestWithBodyChunks(rl, c, h, ch) => RequestStateV::RequestWithBodyChunks(
                rl@,
                c@,
                h@,
                *ch,
            ),
        }
    }
}

impl RequestStateV {
    /// The error state that keeps what this state knew.
    pub open spec fn into_error(self) -> RequestStateV {
        match self {
            RequestStateV::Initial => RequestStateV::Error {
                request: None,
                headers: Seq::empty(),
                data: None,
                index: 0,
                host: None,
                connection: None,
                length: None,
                chunk: None,
            },
            RequestStateV::Parsing { request, headers, index } => RequestStateV::Error {
                request: Some(request),
                headers,
                data: None,
                index,
                host: None,
                connection: None,
                length: None,
                chunk: None,
            },
            RequestStateV::ParsingDone { request, headers, data, index } => RequestStateV::Error {
                request: Some(request),
                headers,
                data: Some(data),
                index,
                host: None,
                connection: None,
                length: None,
                chunk: None,
            },
            RequestStateV::Request(_, conn, host) => RequestStateV::Error {
                request: None,
                headers: Seq::empty(),
                data: None,
                index: 0,
                host: Some(host),
                connection: Some(conn),
                length: None,
                chunk: None,
            },
            RequestStateV::RequestWithBody(_, conn, host, len) => RequestStateV::Error {
                request: None,
                headers: Seq::empty(),
                data: None,
                index: 0,
                host: Some(host),
                connection: Some(conn),
                length: Some(LengthInformation::Length(len)),
                chunk: None,
            },
            RequestStateV::RequestWithBodyChunks(_, conn, host, chunk) => RequestStateV::Error {
                request: None,
                headers: Seq::empty(),
                data: None,
                index: 0,
                host: Some(host),
                connection: Some(conn),
                length: Some(LengthInformation::Chunked),
                chunk: Some(chunk),
            },
            err => err,
        }
    }

    /// The states of a complete head, whose message is being forwarded.
    pub open spec fn is_proxying(self) -> bool {
        ||| self is Request
        ||| self is RequestWithBody
        ||| self is RequestWithBodyChunks
    }

    pub open spec fn request_line(self) -> Option<RRequestLineV> {
        match self {
            RequestStateV::Request(rl, _, _) => Some(rl),
            RequestStateV::RequestWithBody(rl, _, _, _) => Some(rl),
            RequestStateV::RequestWithBodyChunks(rl, _, _, _) => Some(rl),
            _ => None,
        }
    }

    pub open spec fn host(self) -> Option<Seq<char>> {
        match self {
            RequestStateV::Request(_, _, host) => Some(host),
            RequestStateV::RequestWithBody(_, _, host, _) => Some(host),
            RequestStateV::RequestWithBodyChunks(_, _, host, _) => Some(host),
            RequestStateV::Error { host, .. } => host,
            _ => None,
        }
    }

    /// The connection, as `get_keep_alive` reads it.
    pub open spec fn connection(self) -> Option<ConnectionV> {
        match self {
            RequestStateV::Request(_, c, _) => Some(c),
            RequestStateV::RequestWithBody(_, c, _, _) => Some(c),
            RequestStateV::RequestWithBodyChunks(_, c, _, _) => Some(c),
            RequestStateV::Error { connection, .. } => connection,
            _ => None,
        }
    }

    /// This state with the connection of a complete head replaced.
    pub open spec fn with_connection(self, c: ConnectionV) -> RequestStateV {
        match self {
            RequestStateV::Request(rl, _, h) => RequestStateV::Request(rl, c, h),
            RequestStateV::RequestWithBody(rl, _, h, l) => RequestStateV::RequestWithBody(rl, c, h, l),
            RequestStateV::RequestWithBodyChunks(rl, _, h, ch) => RequestStateV::RequestWithBodyChunks(
                rl,
                c,
                h,
                ch,
            ),
            _ => self,
        }
    }

    pub open spec fn is_head(self) -> bool {
        match self.request_line() {
            Some(rl) => rl.method is Head,
            None => false,
        }
    }

    /// Whether the client connection stays open after this request.
    pub open spec fn should_keep_alive(self) -> bool {
        let version = match self.request_line() {
            Some(rl) => Some(rl.version),
            None => None,
        };
        let keep_alive = match self.connection() {
            Some(c) => Some(c.keep_alive),
            None => None,
        };
        match (version, keep_alive) {
            (_, Some(Some(true))) => true,
            (_, Some(Some(false))) => false,
            (Some(Version::V10), _) => false,
            (Some(Version::V11), _) => true,
            (_, _) => false,
        }
    }

    /// Where the data to copy ends, for a request without further parsing.
    pub open spec fn should_copy(self, position: usize) -> Option<int> {
        match self {
            RequestStateV::RequestWithBody(_, _, _, l) => Some(position + l),
            RequestStateV::Request(_, _, _) => Some(position as int),
            _ => None,
        }
    }
}

impl RequestState {
    pub fn into_error(self) -> (r: RequestState)
        ensures
            r@ == self@.into_error(),
    {
        match self {
            RequestState::Initial => {
                let r = RequestState::Error {
                    request: None,
                    headers: Vec::new(),
                    data: None,
                    index: 0,
                    host: None,
                    connection: None,
                    length: None,
                    chunk: None,
                };
                assert(r@ == self@.into_error());
                r
            },
            RequestState::Parsing { request, headers, index } => RequestState::Error {
                request: Some(request),
                headers,
                data: None,
                index,
                host: None,
                connection: None,
                length: None,
                chunk: None,
            },
            RequestState::ParsingDone { request, headers, data, index } => RequestState::Error {
                request: Some(request),
                headers,
                data: Some(data),
                index,
                host: None,
                connection: None,
                length: None,
                chunk: None,
            },
            RequestState::Request(_rl, conn, host) => RequestState::Error {
                request: None,
                headers: Vec::new(),
                data: None,
                index: 0,
                host: Some(host),
                connection: Some(conn),
                length: None,
                chunk: None,
            },
            RequestState::RequestWithBody(_rl, conn, host, len) => RequestState::Error {
                request: None,
                headers: Vec::new(),
                data: None,
                index: 0,
                host: Some(host),
                connection: Some(conn),
                length: Some(LengthInformation::Length(len)),
                chunk: None,
            },
            RequestState::RequestWithBodyChunks(_rl, conn, host, chunk) => RequestState::Error {
                request: None,
                headers: Vec::new(),
                data: None,
                index: 0,
                host: Some(host),
                connection: Some(conn),
                length: Some(LengthInformation::Chunked),
                chunk: Some(chunk),
            },
            err => err,
        }
    }

    pub fn is_front_error(&self) -> (r: bool)
        ensures
            r == (self@ is Error),
    {
        if let RequestState::Error { .. } = self {
            true
        } else {
            false
        }
    }

    pub fn has_host(&self) -> (r: bool)
        ensures
            r == self@.is_proxying(),
    {
        match *self {
            RequestState::Request(_, _, _)
            | RequestState::RequestWithBody(_, _, _, _)
            | RequestState::RequestWithBodyChunks(_, _, _, _) => true,
            _ => false,
        }
    }

    pub fn is_proxying(&self) -> (r: bool)
        ensures
            r == self@.is_proxying(),
    {
        match *self {
            RequestState::Request(_, _, _)
            | RequestState::RequestWithBody(_, _, _, _)
            | RequestState::RequestWithBodyChunks(_, _, _, _) => true,
            _ => false,
        }
    }

    pub fn is_head(&self) -> (r: bool)
        ensures
            r == self@.is_head(),
    {
        match self {
            RequestState::Request(rl, _, _)
            | RequestState::RequestWithBody(rl, _, _, _)
            | RequestState::RequestWithBodyChunks(rl, _, _, _) => {
                matches!(rl.method, crate::types::Method::Head)
            },
            _ => false,
        }
    }

    pub fn get_host(&self) -> (r: Option<&str>)
        ensures
            match r {
                Some(h) => self@.host() == Some(h@),
                None => self@.host() is None,
            },
    {
        match self {
            RequestState::Request(_, _, host)
            | RequestState::RequestWithBody(_, _, host, _)
            | RequestState::RequestWithBodyChunks(_, _, host, _) => Some(host.as_str()),
            RequestState::Error { host, .. } => match host {
                Some(h) => Some(h.as_str()),
                None => None,
            },
            _ => None,
        }
    }

    pub fn get_uri(&self) -> (r: Option<&str>)
        ensures
            match r {
                Some(u) => self@.request_line() matches Some(rl) && rl.uri == u@,
                None => self@.request_line() is None,
            },
    {
        match self {
            RequestState::Request(rl, _, _)
            | RequestState::RequestWithBody(rl, _, _, _)
            | RequestState::RequestWithBodyChunks(rl, _, _, _) => Some(rl.uri.as_str()),
            _ => None,
        }
    }

    pub fn get_request_line(&self) -> (r: Option<&RRequestLine>)
        ensures
            match r {
                Some(rl) => self@.request_line() == Some(rl@),
                None => self@.request_line() is None,
            },
    {
        match self {
            RequestState::Request(rl, _, _)
            | RequestState::RequestWithBody(rl, _, _, _)
            | RequestState::RequestWithBodyChunks(rl, _, _, _) => Some(rl),
            _ => None,
        }
    }

    pub fn get_keep_alive(&self) -> (r: Option<&Connection>)
        ensures
            match r {
                Some(c) => self@.connection() == Some(c@),
                None => self@.connection() is None,
            },
    {
        match self {
            RequestState::Request(_, conn, _)
            | RequestState::RequestWithBody(_, conn, _, _)
            | RequestState::RequestWithBodyChunks(_, conn, _, _) => Some(conn),
            RequestState::Error { connection, .. } => connection.as_ref(),
            _ => None,
        }
    }

    pub fn get_mut_connection(&mut self) -> (r: Option<&mut Connection>)
        ensures
            match r {
                Some(c) => {
                    &&& old(self)@.is_proxying()
                    &&& old(self)@.connection() == Some(c@)
                    &&& final(self)@ == old(self)@.with_connection(final(c)@)
                },
                None => {
                    &&& !old(self)@.is_proxying()
                    &&& final(self)@ == old(self)@
                },
            },
    {
        match self {
            RequestState::Request(_, conn, _) => Some(conn),
            RequestState::RequestWithBody(_, conn, _, _) => Some(conn),
            RequestState::RequestWithBodyChunks(_, conn, _, _) => Some(conn),
            _ => None,
        }
    }

    pub fn should_copy(&self, position: usize) -> (r: Option<usize>)
        requires
            self@ matches RequestStateV::RequestWithBody(_, _, _, l) ==> position + l <= usize::MAX,
        ensures
            match r {
                Some(p) => self@.should_copy(position) == Some(p as int),
                None => self@.should_copy(position) is None,
            },
    {
        match *self {
            RequestState::RequestWithBody(_, _, _, l) => Some(position + l),
            RequestState::Request(_, _, _) => Some(position),
            _ => None,
        }
    }

    pub fn should_keep_alive(&self) -> (r: bool)
        ensures
            r == self@.should_keep_alive(),
    {
        let rl = self.get_request_line();
        let version = match rl {
            Some(rl) => Some(rl.version),
            None => None,
        };
        let conn = self.get_keep_alive();
        let keep_alive = match conn {
            Some(c) => Some(c.keep_alive),
            None => None,
        };
        match (version, keep_alive) {
            (_, Some(Some(true))) => true,
            (_, Some(Some(false))) => false,
            (Some(Version::V10), _) => false,
            (Some(Version::V11), _) => true,
            (_, _) => false,
        }
    }
}


/// What the default handling of an unfinished parse does: a parse error makes
/// the state an error, missing input leaves it as it is.
pub open spec fn spec_default_request_result<O>(state: RequestStateV, res: ParseResult<O>) -> RequestStateV {
    match res {
        ParseResult::Incomplete => state,
        _ => state.into_error(),
    }
}

/// Handles a parser result that is not `Done`.
pub fn default_request_result<O>(state: RequestState, res: ParseResult<O>) -> (r: RequestState)
    requires
        !(res is Done),
    ensures
        r@ == spec_default_request_result(state@, res),
{
    match res {
        ParseResult::Error => state.into_error(),
        ParseResult::Incomplete => state,
        ParseResult::Done(_, _) => state,
    }
}

/// The header that the grammar found at `index` in `buf`.
pub open spec fn header_at(buf: Seq<u8>, index: usize, h: HeaderRange) -> Header {
    spec_header(
        buf,
        index,
        (index + h.name_end) as usize,
        (index + h.value_start) as usize,
        (index + h.value_end) as usize,
    )
}

/// Reads header lines from `index` until the empty line that ends the head,
/// or until the input runs out or does not parse.
pub open spec fn parse_headers(request: RequestLine, headers: Seq<Header>, index: usize, buf: Seq<u8>) -> RequestStateV
    decreases buf.len() - index,
{
    let parsing = RequestStateV::Parsing { request, headers, index };
    if index > buf.len() {
        parsing
    } else {
        let s = buf.subrange(index as int, buf.len() as int);
        match spec_message_header(s) {
            ParseResult::Done(i, h) => if 0 < i && index + i <= buf.len() && index + i <= usize::MAX {
                parse_headers(request, headers.push(header_at(buf, index, h)), (index + i) as usize, buf)
            } else {
                // a header line always takes at least one of the bytes it was given
                parsing
            },
            _ => match spec_crlf(s) {
                ParseResult::Done(i, _) => RequestStateV::ParsingDone {
                    request,
                    headers,
                    index: (index + i) as usize,
                    data: Slice { start: index, len: 2, meta: Meta::HeadersEnd },
                },
                r => spec_default_request_result(parsing, r),
            },
        }
    }
}

/// The parsing loop: the request line, then the headers.
pub open spec fn spec_request_loop(state: RequestStateV, buf: Seq<u8>) -> RequestStateV {
    match state {
        RequestStateV::Initial => match spec_request_line(buf) {
            ParseResult::Done(i, l) => parse_headers(spec_request_line_of(l), Seq::empty(), i, buf),
            ParseResult::Incomplete => RequestStateV::Initial,
            ParseResult::Error => RequestStateV::Initial.into_error(),
        },
        RequestStateV::Parsing { request, headers, index } => parse_headers(request, headers, index, buf),
        _ => state,
    }
}

/// What the headers of a complete head say: the host, the body length, and
/// whether they can be read at all (`ok` is false where reading them fails).
pub struct FinishAcc {
    pub host: Option<Seq<char>>,
    pub length: Option<LengthInformation>,
    pub ok: bool,
}

pub open spec fn finish_failed(acc: FinishAcc) -> FinishAcc {
    FinishAcc { ok: false, ..acc }
}

/// One header's contribution: the last `Host` gives the host (none if it is
/// not UTF-8); a `Content-Length` gives the length, and may come again with
/// the same value; a `Transfer-Encoding` that lists `chunked` makes the body
/// chunked, whatever `Content-Length` comes before or after it.
pub open spec fn finish_header(acc: FinishAcc, h: Header, buf: Seq<u8>) -> FinishAcc {
    if !acc.ok {
        acc
    } else {
        match h.name.meta {
            Meta::HeaderName(HeaderName::Host) => match spec_slice_data(h.value, buf) {
                None => finish_failed(acc),
                Some(v) => FinishAcc {
                    host: if valid_utf8(v) {
                        Some(decode_utf8(v))
                    } else {
                        None
                    },
                    ..acc
                },
            },
            Meta::HeaderName(HeaderName::ContentLength) => match spec_slice_data(h.value, buf) {
                None => finish_failed(acc),
                Some(v) => match spec_parse_usize(v) {
                    None => finish_failed(acc),
                    Some(sz) => match acc.length {
                        None => FinishAcc { length: Some(LengthInformation::Length(sz)), ..acc },
                        Some(LengthInformation::Chunked) => acc,
                        Some(LengthInformation::Length(prev)) => if prev == sz {
                            acc
                        } else {
                            finish_failed(acc)
                        },
                    },
                },
            },
            Meta::HeaderName(HeaderName::TransferEncoding) => match spec_slice_data(h.value, buf) {
                None => finish_failed(acc),
                Some(v) => if list_has(v, 0, kw(Keyword::Chunked)) {
                    FinishAcc { length: Some(LengthInformation::Chunked), ..acc }
                } else {
                    acc
                },
            },
            _ => acc,
        }
    }
}

pub open spec fn finish_headers(headers: Seq<Header>, buf: Seq<u8>) -> FinishAcc
    decreases headers.len(),
{
    if headers.len() == 0 {
        FinishAcc { host: None, length: None, ok: true }
    } else {
        finish_header(finish_headers(headers.drop_last(), buf), headers.last(), buf)
    }
}

proof fn lemma_finish_failure_persists(headers: Seq<Header>, buf: Seq<u8>, k: int)
    requires
        0 <= k <= headers.len(),
        !finish_headers(headers.take(k), buf).ok,
    ensures
        !finish_headers(headers, buf).ok,
    decreases headers.len() - k,
{
    if k < headers.len() {
        assert(headers.take(k + 1).drop_last() =~= headers.take(k));
        lemma_finish_failure_persists(headers, buf, k + 1);
    } else {
        assert(headers.take(k) =~= headers);
    }
}

/// A `Transfer-Encoding` header of `buf` that lists `chunked`.
pub open spec fn is_chunked_header(h: Header, buf: Seq<u8>) -> bool {
    &&& h.name.meta == Meta::HeaderName(HeaderName::TransferEncoding)
    &&& spec_slice_data(h.value, buf) matches Some(v) && list_has(v, 0, kw(Keyword::Chunked))
}

/// The value of a `Content-Length` header of `buf`, where it has one.
pub open spec fn length_value(h: Header, buf: Seq<u8>) -> Option<usize> {
    if h.name.meta == Meta::HeaderName(HeaderName::ContentLength) {
        match spec_slice_data(h.value, buf) {
            Some(v) => spec_parse_usize(v),
            None => None,
        }
    } else {
        None
    }
}

/// A `Transfer-Encoding` that lists `chunked` makes the body chunked, in
/// whatever order it and any `Content-Length` come.
pub proof fn law_chunked_takes_priority(headers: Seq<Header>, buf: Seq<u8>, i: int)
    requires
        0 <= i < headers.len(),
        is_chunked_header(headers[i], buf),
        finish_headers(headers, buf).ok,
    ensures
        finish_headers(headers, buf).length == Some(LengthInformation::Chunked),
    decreases headers.len(),
{
    let init = headers.drop_last();
    if !finish_headers(init, buf).ok {
        lemma_finish_failure_persists(headers, buf, headers.len() - 1);
        assert(headers.take(headers.len() - 1) =~= init);
    }
    if i < headers.len() - 1 {
        assert(init[i] == headers[i]);
        law_chunked_takes_priority(init, buf, i);
    }
}

/// The host of a head that can be read is the value of its last `Host`
/// header, as text where it is UTF-8.
pub proof fn law_host_is_last(headers: Seq<Header>, buf: Seq<u8>, i: int)
    requires
        0 <= i < headers.len(),
        headers[i].name.meta == Meta::HeaderName(HeaderName::Host),
        forall|j: int| i < j < headers.len() ==> (#[trigger] headers[j]).name.meta != Meta::HeaderName(
            HeaderName::Host,
        ),
        finish_headers(headers, buf).ok,
    ensures
        spec_slice_data(headers[i].value, buf) matches Some(v) && finish_headers(headers, buf).host == if valid_utf8(v) {
            Some(decode_utf8(v))
        } else {
            None::<Seq<char>>
        },
    decreases headers.len(),
{
    let init = headers.drop_last();
    if !finish_headers(init, buf).ok {
        lemma_finish_failure_persists(headers, buf, headers.len() - 1);
        assert(headers.take(headers.len() - 1) =~= init);
    }
    if i < headers.len() - 1 {
        assert(init[i] == headers[i]);
        assert forall|j: int| i < j < init.len() implies (#[trigger] init[j]).name.meta != Meta::HeaderName(
            HeaderName::Host,
        ) by {
            assert(init[j] == headers[j]);
        }
        law_host_is_last(init, buf, i);
        assert(headers[headers.len() - 1].name.meta != Meta::HeaderName(HeaderName::Host));
    }
}

/// Every `Content-Length` of a head that can be read gives its length,
/// unless the body is chunked.
pub proof fn law_lengths_agree(headers: Seq<Header>, buf: Seq<u8>, i: int)
    requires
        0 <= i < headers.len(),
        length_value(headers[i], buf) is Some,
        finish_headers(headers, buf).ok,
    ensures
        finish_headers(headers, buf).length == Some(LengthInformation::Length(length_value(headers[i], buf)->0))
            || finish_headers(headers, buf).length == Some(LengthInformation::Chunked),
    decreases headers.len(),
{
    let init = headers.drop_last();
    if !finish_headers(init, buf).ok {
        lemma_finish_failure_persists(headers, buf, headers.len() - 1);
        assert(headers.take(headers.len() - 1) =~= init);
    }
    if i < headers.len() - 1 {
        assert(init[i] == headers[i]);
        law_lengths_agree(init, buf, i);
    }
}

/// A head is read where every `Content-Length` and `Transfer-Encoding`
/// value lies in the buffer, every `Content-Length` is a number, and those
/// numbers agree; repeating a `Content-Length` with the same value is fine.
pub proof fn law_agreeing_lengths_are_read(headers: Seq<Header>, buf: Seq<u8>)
    requires
        forall|i: int|
            0 <= i < headers.len() ==> (#[trigger] headers[i]).name.meta == Meta::HeaderName(
                HeaderName::ContentLength,
            ) ==> length_value(headers[i], buf) is Some,
        forall|i: int|
            0 <= i < headers.len() ==> ((#[trigger] headers[i]).name.meta == Meta::HeaderName(
                HeaderName::Host,
            ) || headers[i].name.meta == Meta::HeaderName(HeaderName::TransferEncoding))
                ==> spec_slice_data(headers[i].value, buf) is Some,
        forall|i: int, j: int|
            0 <= i < headers.len() && 0 <= j < headers.len() && length_value(headers[i], buf) is Some
                && length_value(headers[j], buf) is Some ==> #[trigger] length_value(headers[i], buf)
                == #[trigger] length_value(headers[j], buf),
    ensures
        finish_headers(headers, buf).ok,
    decreases headers.len(),
{
    if headers.len() > 0 {
        let init = headers.drop_last();
        let n = headers.len() - 1;
        assert forall|i: int| 0 <= i < init.len() implies #[trigger] init[i] == headers[i] by {}
        law_agreeing_lengths_are_read(init, buf);
        let h = headers[n];
        if length_value(h, buf) is Some {
            let acc = finish_headers(init, buf);
            if let Some(LengthInformation::Length(prev)) = acc.length {
                assert(exists|i: int| 0 <= i < init.len() && length_value(init[i], buf) == Some(prev))
                    by {
                    lemma_length_comes_from(init, buf);
                }
                let i = choose|i: int| 0 <= i < init.len() && length_value(init[i], buf) == Some(prev);
                assert(length_value(headers[i], buf) == length_value(headers[n], buf));
            }
        }
    }
}

proof fn lemma_length_comes_from(headers: Seq<Header>, buf: Seq<u8>)
    ensures
        finish_headers(headers, buf).length matches Some(LengthInformation::Length(l)) ==> exists|i: int|
            0 <= i < headers.len() && length_value(headers[i], buf) == Some(l),
    decreases headers.len(),
{
    if headers.len() > 0 {
        let init = headers.drop_last();
        lemma_length_comes_from(init, buf);
        let n = headers.len() - 1;
        if let Some(LengthInformation::Length(l)) = finish_headers(headers, buf).length {
            if finish_headers(init, buf).length == Some(LengthInformation::Length(l)) {
                let i = choose|i: int| 0 <= i < init.len() && length_value(init[i], buf) == Some(l);
                assert(init[i] == headers[i]);
            } else {
                assert(length_value(headers[n], buf) == Some(l));
            }
        }
    }
}

/// The state of a complete head: `None` where its request line or its
/// headers cannot be read, or it names no host.
pub open spec fn spec_finish_request(request: RequestLine, headers: Seq<Header>, buf: Seq<u8>) -> Option<RequestStateV> {
    let acc = finish_headers(headers, buf);
    match (spec_to_rrequest_line(request, buf), acc.host) {
        (Some(rl), Some(host)) => if !acc.ok {
            None
        } else {
            Some(
                match acc.length {
                    None => RequestStateV::Request(rl, fresh_connection(), host),
                    Some(LengthInformation::Length(sz)) => RequestStateV::RequestWithBody(
                        rl,
                        fresh_connection(),
                        host,
                        sz,
                    ),
                    Some(LengthInformation::Chunked) => RequestStateV::RequestWithBodyChunks(
                        rl,
                        fresh_connection(),
                        host,
                        Chunk::Initial,
                    ),
                },
            )
        },
        _ => None,
    }
}

/// What `parse_request_until_stop` gives: the state and where the head ends;
/// `None` where the head is complete but `finish_request` cannot read it.
pub open spec fn spec_parse_request_until_stop(state: RequestStateV, buf: Seq<u8>) -> Option<(RequestStateV, Option<usize>)> {
    let s = spec_request_loop(state, buf);
    match s {
        RequestStateV::ParsingDone { request, headers, index, .. } => match spec_finish_request(
            request,
            headers,
            buf,
        ) {
            Some(f) => Some((f, Some(index))),
            None => None,
        },
        _ => Some((s, None)),
    }
}

fn parse_headers_from(request: RequestLine, start_headers: Vec<Header>, start: usize, buf: &[u8]) -> (r: RequestState)
    requires
        start <= buf@.len(),
    ensures
        r@ == parse_headers(request, start_headers@, start, buf@),
{
    let mut headers = start_headers;
    let mut index = start;
    loop
        invariant
            index <= buf@.len(),
            parse_headers(request, headers@, index, buf@) == parse_headers(
                request,
                start_headers@,
                start,
                buf@,
            ),
        decreases buf@.len() - index,
    {
        let rest = &buf[index..buf.len()];
        match message_header(rest) {
            ParseResult::Done(i, h) => {
                let header = Header::new(
                    buf,
                    index,
                    index + h.name_end,
                    index + h.value_start,
                    index + h.value_end,
                );
                headers.push(header);
                index = index + i;
            },
            _ => match crlf(rest) {
                ParseResult::Done(i, _) => {
                    return RequestState::ParsingDone {
                        request,
                        headers,
                        index: index + i,
                        data: Slice::new(index, 2, Meta::HeadersEnd),
                    };
                },
                ParseResult::Incomplete => {
                    return default_request_result(
                        RequestState::Parsing { request, headers, index },
                        ParseResult::<()>::Incomplete,
                    );
                },
                ParseResult::Error => {
                    return default_request_result(
                        RequestState::Parsing { request, headers, index },
                        ParseResult::<()>::Error,
                    );
                },
            },
        }
    }
}


/// The request line and the headers to forward for a head: as they came.
fn transform_request(
    request: RequestLine,
    headers: &[Header],
    header_end: Option<usize>,
    buffer: &mut HttpBuffer,
    sticky_name: &str,
) -> (r: (RequestLine, Vec<Header>))
    ensures
        r.0 == request,
        r.1@ == headers@,
        *final(buffer) == *old(buffer),
{
    let mut h: Vec<Header> = Vec::new();
    let mut k: usize = 0;
    while k < headers.len()
        invariant
            k <= headers@.len(),
            h@ == headers@.take(k as int),
        decreases headers@.len() - k,
    {
        h.push(headers[k]);
        k = k + 1;
        assert(h@ =~= headers@.take(k as int));
    }
    assert(h@ =~= headers@);
    (request, h)
}

/// The state of a complete head, as [`finish_request`] gives it, where it can
/// be read: `None` where its request line or a header cannot be read, two
/// `Content-Length` headers of a body that is not chunked disagree, or no
/// host is named.
pub fn try_finish_request(
    request: RequestLine,
    headers: Vec<Header>,
    index: usize,
    data: Slice,
    buffer: &mut HttpBuffer,
    sticky_name: &str,
) -> (r: Option<RequestState>)
    requires
        old(buffer).buffer_position <= old(buffer).parsed_position,
    ensures
        match r {
            Some(s) => spec_finish_request(request, headers@, old(buffer).spec_unparsed()) == Some(s@),
            None => spec_finish_request(request, headers@, old(buffer).spec_unparsed()) is None,
        },
        *final(buffer) == *old(buffer),
{
    let buf = buffer.unparsed_data();
    let connection = Connection::new();
    let mut length: Option<LengthInformation> = None;
    let mut host: Option<String> = None;
    let request_line = request.to_rrequest_line(buf);
    let ghost hs = headers@;
    let mut k: usize = 0;
    assert(hs.take(0) =~= Seq::<Header>::empty());
    while k < headers.len()
        invariant
            k <= hs.len(),
            hs == headers@,
            buf@ == old(buffer).spec_unparsed(),
            finish_headers(hs.take(k as int), buf@) == (FinishAcc {
                host: opt_text_view(host),
                length,
                ok: true,
            }),
        decreases hs.len() - k,
    {
        let header = headers[k];
        proof {
            assert(hs.take(k + 1).drop_last() =~= hs.take(k as int));
            assert(hs.take(k + 1).last() == header);
        }
        match header.name.meta {
            Meta::HeaderName(HeaderName::Host) => match header.value.data(buf) {
                None => {
                    proof {
                        lemma_finish_failure_persists(hs, buf@, k + 1);
                    }
                    return None;
                },
                Some(v) => {
                    host = utf8_string(v);
                },
            },
            Meta::HeaderName(HeaderName::ContentLength) => match header.value.data(buf) {
                None => {
                    proof {
                        lemma_finish_failure_persists(hs, buf@, k + 1);
                    }
                    return None;
                },
                Some(v) => match parse_usize(v) {
                    None => {
                        proof {
                            lemma_finish_failure_persists(hs, buf@, k + 1);
                        }
                        return None;
                    },
                    Some(sz) => match length {
                        None => {
                            length = Some(LengthInformation::Length(sz));
                        },
                        // a chunked body stays chunked
                        Some(LengthInformation::Chunked) => {},
                        // a repeated Content-Length must repeat the same value
                        Some(LengthInformation::Length(prev)) => if prev != sz {
                            proof {
                                lemma_finish_failure_persists(hs, buf@, k + 1);
                            }
                            return None;
                        },
                    },
                },
            },
            Meta::HeaderName(HeaderName::TransferEncoding) => match header.value.data(buf) {
                None => {
                    proof {
                        lemma_finish_failure_persists(hs, buf@, k + 1);
                    }
                    return None;
                },
                Some(v) => {
                    // Transfer-Encoding takes priority over Content-Length
                    let chunked = kw_bytes(Keyword::Chunked);
                    if list_contains(v, chunked.as_slice()) {
                        length = Some(LengthInformation::Chunked);
                    }
                },
            },
            _ => {},
        }
        k = k + 1;
    }
    assert(hs.take(hs.len() as int) =~= hs);
    let request_line = match request_line {
        Some(rl) => rl,
        None => {
            return None;
        },
    };
    let host = match host {
        Some(h) => h,
        None => {
            return None;
        },
    };
    Some(
        match length {
            None => RequestState::Request(request_line, connection, host),
            Some(LengthInformation::Length(sz)) => RequestState::RequestWithBody(
                request_line,
                connection,
                host,
                sz,
            ),
            Some(LengthInformation::Chunked) => RequestState::RequestWithBodyChunks(
                request_line,
                connection,
                host,
                Chunk::Initial,
            ),
        },
    )
}

/// The state of a complete head: its owned request line, its host, and how
/// its body is delimited. [`try_finish_request`] tells beforehand whether
/// the `requires` holds.
pub fn finish_request(
    request: RequestLine,
    headers: Vec<Header>,
    index: usize,
    data: Slice,
    buffer: &mut HttpBuffer,
    sticky_name: &str,
) -> (r: RequestState)
    requires
        old(buffer).buffer_position <= old(buffer).parsed_position,
        spec_finish_request(request, headers@, old(buffer).spec_unparsed()) is Some,
    ensures
        r@ == spec_finish_request(request, headers@, old(buffer).spec_unparsed())->0,
        *final(buffer) == *old(buffer),
{
    match try_finish_request(request, headers, index, data, buffer, sticky_name) {
        Some(s) => s,
        None => RequestState::Initial,
    }
}

/// The states that request parsing can go on from, on the unparsed bytes
/// `buf`: the start, or the middle of the headers at a position within them.
pub open spec fn can_resume(state: RequestStateV, buf: Seq<u8>) -> bool {
    state is Initial || (state matches RequestStateV::Parsing { index, .. } && index <= buf.len())
}

/// Parses the request head as [`parse_request_until_stop`] does, where that
/// can be done: `None` where `state` is not one that parsing goes on from, or
/// where the head is complete but cannot be read (see
/// [`try_finish_request`]).
pub fn try_parse_request_until_stop(
    state: RequestState,
    header_end: Option<usize>,
    buffer: &mut HttpBuffer,
    sticky_name: &str,
) -> (r: Option<(RequestState, Option<usize>)>)
    requires
        old(buffer).buffer_position <= old(buffer).parsed_position,
    ensures
        match r {
            Some(p) => {
                &&& can_resume(state@, old(buffer).spec_unparsed())
                &&& spec_parse_request_until_stop(state@, old(buffer).spec_unparsed()) == Some(
                    (p.0@, p.1),
                )
            },
            None => !can_resume(state@, old(buffer).spec_unparsed()) || spec_parse_request_until_stop(
                state@,
                old(buffer).spec_unparsed(),
            ) is None,
        },
        *final(buffer) == *old(buffer),
{
    let buf = buffer.unparsed_data();
    let state = match state {
        RequestState::Initial => match request_line(buf) {
            ParseResult::Done(i, l) => parse_headers_from(RequestLine::new(l), Vec::new(), i, buf),
            ParseResult::Incomplete => RequestState::Initial,
            ParseResult::Error => default_request_result(
                RequestState::Initial,
                ParseResult::<()>::Error,
            ),
        },
        RequestState::Parsing { request, headers, index } => {
            if index > buf.len() {
                return None;
            }
            parse_headers_from(request, headers, index, buf)
        },
        _ => {
            return None;
        },
    };
    let header_end = if let RequestState::ParsingDone { index, .. } = state {
        Some(index)
    } else {
        None
    };
    let state = match state {
        RequestState::ParsingDone { request, headers, index, data } => match try_finish_request(
            request,
            headers,
            index,
            data,
            buffer,
            sticky_name,
        ) {
            Some(s) => s,
            None => {
                return None;
            },
        },
        s => s,
    };
    Some((state, header_end))
}

/// Parses the request head in the unparsed part of `buffer`, from `state`
/// (the start, or the middle of the headers): the request line, then header
/// lines until the empty line that ends the head. A complete head gives a
/// request state with its host and body length, and the position where the
/// head ends; otherwise the state says how far parsing got, or that it failed.
/// [`try_parse_request_until_stop`] tells beforehand whether the `requires`
/// holds.
pub fn parse_request_until_stop(
    state: RequestState,
    header_end: Option<usize>,
    buffer: &mut HttpBuffer,
    sticky_name: &str,
) -> (r: (RequestState, Option<usize>))
    requires
        old(buffer).buffer_position <= old(buffer).parsed_position,
        can_resume(state@, old(buffer).spec_unparsed()),
        spec_parse_request_until_stop(state@, old(buffer).spec_unparsed()) is Some,
    ensures
        r.0@ == (spec_parse_request_until_stop(state@, old(buffer).spec_unparsed())->0).0,
        r.1 == (spec_parse_request_until_stop(state@, old(buffer).spec_unparsed())->0).1,
        *final(buffer) == *old(buffer),
{
    match try_parse_request_until_stop(state, header_end, buffer, sticky_name) {
        Some(r) => r,
        None => (RequestState::Initial, None),
    }
}

proof fn lemma_parse_headers_resumes(request: RequestLine, headers: Seq<Header>, index: usize, p: Seq<u8>, q: Seq<u8>)
    requires
        index <= p.len(),
        (p + q).len() <= usize::MAX,
        parse_headers(request, headers, index, p) is Parsing,
    ensures
        parse_headers(request, headers, index, p)->Parsing_request == request,
        ({
            let stop = parse_headers(request, headers, index, p);
            parse_headers(request, headers, index, p + q) == parse_headers(
                request,
                stop->Parsing_headers,
                stop->Parsing_index,
                p + q,
            )
        }),
    decreases p.len() - index,
{
    let pq = p + q;
    let s = p.subrange(index as int, p.len() as int);
    let sq = pq.subrange(index as int, pq.len() as int);
    assert(sq =~= s + q);
    lemma_message_header_done(s);
    match spec_message_header(s) {
        ParseResult::Done(i, h) => {
            lemma_message_header_ext(s, q);
            assert(pq.subrange(index as int, index + h.name_end) =~= p.subrange(
                index as int,
                index + h.name_end,
            ));
            assert(header_at(pq, index, h) == header_at(p, index, h));
            lemma_parse_headers_resumes(request, headers.push(header_at(p, index, h)), (index + i) as usize, p, q);
        },
        _ => {},
    }
}

proof fn lemma_parse_headers_shape(request: RequestLine, headers: Seq<Header>, index: usize, buf: Seq<u8>)
    ensures
        ({
            let r = parse_headers(request, headers, index, buf);
            r is Parsing || r is ParsingDone || r is Error
        }),
    decreases buf.len() - index,
{
    if index <= buf.len() {
        let s = buf.subrange(index as int, buf.len() as int);
        if let ParseResult::Done(i, h) = spec_message_header(s) {
            if 0 < i && index + i <= buf.len() && index + i <= usize::MAX {
                lemma_parse_headers_shape(request, headers.push(header_at(buf, index, h)), (index + i) as usize, buf);
            }
        }
    }
}

/// Parsing a request head that stopped for want of input can resume from the
/// state it stopped in: once more bytes arrived after the ones it saw, going
/// on from that state gives what parsing all the bytes from the start gives.
pub proof fn law_request_parse_resumes(state: RequestStateV, p: Seq<u8>, q: Seq<u8>)
    requires
        state is Initial || state is Parsing,
        (p + q).len() <= usize::MAX,
        spec_request_loop(state, p) is Parsing,
    ensures
        spec_parse_request_until_stop(state, p) == Some((spec_request_loop(state, p), None::<usize>)),
        spec_parse_request_until_stop(state, p + q) == spec_parse_request_until_stop(
            spec_request_loop(state, p),
            p + q,
        ),
{
    let stop = spec_request_loop(state, p);
    match state {
        RequestStateV::Initial => {
            lemma_request_line_done(p);
            lemma_request_line_ext(p, q);
            if let ParseResult::Done(i, l) = spec_request_line(p) {
                lemma_parse_headers_resumes(spec_request_line_of(l), Seq::empty(), i, p, q);
            }
        },
        RequestStateV::Parsing { request, headers, index } => {
            if index <= p.len() {
                lemma_parse_headers_resumes(request, headers, index, p, q);
            }
        },
        _ => {},
    }
}

/// A request head's end is reported exactly when the head is complete and
/// the request is being forwarded.
pub proof fn law_request_head_end(state: RequestStateV, buf: Seq<u8>)
    requires
        state is Initial || state is Parsing,
    ensures
        spec_parse_request_until_stop(state, buf) matches Some((s, end)) ==> (end is Some
            <==> s.is_proxying()),
{
    match state {
        RequestStateV::Initial => {
            if let ParseResult::Done(i, l) = spec_request_line(buf) {
                lemma_parse_headers_shape(spec_request_line_of(l), Seq::empty(), i, buf);
            }
        },
        RequestStateV::Parsing { request, headers, index } => {
            lemma_parse_headers_shape(request, headers, index, buf);
        },
        _ => {},
    }
}

/// What is written through the connection that `get_mut_connection` hands
/// out is what `get_keep_alive` reads afterwards, and the request line and
/// the host stay as they were.
pub proof fn law_request_connection_reads_back(state: RequestStateV, c: ConnectionV)
    requires
        state.is_proxying(),
    ensures
        state.with_connection(c).connection() == Some(c),
        state.with_connection(c).request_line() == state.request_line(),
        state.with_connection(c).host() == state.host(),
        state.with_connection(c).with_connection(state.connection()->0) == state,
{
}

/// With no bytes to read, request parsing waits where it is.
pub proof fn law_request_waits_without_input(state: RequestStateV)
    requires
        state is Initial || state is Parsing,
    ensures
        spec_parse_request_until_stop(state, Seq::empty()) == Some((state, None::<usize>)),
{
    let e = Seq::<u8>::empty();
    assert(e.subrange(0, 0) =~= e);
    assert(e.subrange(0, 0) =~= crate::grammar::crlf_lit().subrange(0, 0));
}

/// An error state is final: making it an error again changes nothing, and
/// it keeps the host and the connection of the state it came from. (A
/// `Copying` state is left as it is.)
pub proof fn law_request_error_is_final(state: RequestStateV)
    ensures
        !(state is Copying) ==> state.into_error() is Error,
        state.into_error().into_error() == state.into_error(),
        state.into_error().host() == state.host(),
        state.into_error().connection() == state.connection(),
{
}

} // verus!
