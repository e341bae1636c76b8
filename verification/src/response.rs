//! The state machine that parses the head of an HTTP response.
use vstd::prelude::*;
use vstd::utf8::valid_utf8;
use vstd::utf8::decode_utf8;
use vstd::slice::slice_to_vec;
use vstd::string::StringSliceAdditionalSpecFns;
use crate::chunk::{lemma_chunk_parse_settles, spec_chunk_parse};
use crate::prefix::{
    lemma_crlf_ext, lemma_message_header_done, lemma_message_header_ext, lemma_status_line_done,
    lemma_status_line_ext,
};
use crate::grammar::{
    crlf, in_class, is_digit, lemma_span, message_header, spec_crlf, spec_message_header,
    spec_status_line, status_line, CharClass, HeaderRange, ParseResult, StatusLineRange,
};
use crate::text::{ascii_chars, is_ascii_bytes, lemma_ascii_utf8};
use crate::header_value::{
    spec_header_value, spec_should_delete, ConnectionValue, Header, HeaderValue, HeaderValueV,
    TransferEncodingValue,
};
use crate::text::utf8_string;
use crate::types::{
    fresh_connection, BufferMove, Chunk, Connection, ConnectionV, LengthInformation, RStatusLine,
    RStatusLineV, Version,
};

verus! {

/// The protocol a response switches to.
pub type UpgradeProtocol = String;

/// Where the parsing of a response stands.
#[derive(Debug, Clone, PartialEq)]
pub enum ResponseState {
    Initial,
    Error {
        status: Option<RStatusLine>,
        connection: Option<Connection>,
        upgrade: Option<UpgradeProtocol>,
        length: Option<LengthInformation>,
        chunk: Option<Chunk>,
    },
    HasStatusLine { status: RStatusLine, connection: Connection },
    HasUpgrade { status: RStatusLine, connection: Connection, upgrade: UpgradeProtocol },
    HasLength { status: RStatusLine, connection: Connection, length: LengthInformation },
    Response { status: RStatusLine, connection: Connection },
    ResponseUpgrade { status: RStatusLine, connection: Connection, upgrade: UpgradeProtocol },
    ResponseWithBody { status: RStatusLine, connection: Connection, length: usize },
    ResponseWithBodyChunks { status: RStatusLine, connection: Connection, chunk: Chunk },
    /// The body ends when the backend closes the connection; the flag says whether it has.
    ResponseWithBodyCloseDelimited { status: RStatusLine, connection: Connection, back_closed: bool },
}

/// Mathematical model of a [`ResponseState`].
pub enum ResponseStateV {
    Initial,
    Error {
        status: Option<RStatusLineV>,
        connection: Option<ConnectionV>,
        upgrade: Option<Seq<char>>,
        length: Option<LengthInformation>,
        chunk: Option<Chunk>,
    },
    HasStatusLine { status: RStatusLineV, connection: ConnectionV },
    HasUpgrade { status: RStatusLineV, connection: ConnectionV, upgrade: Seq<char> },
    HasLength { status: RStatusLineV, connection: ConnectionV, length: LengthInformation },
    Response { status: RStatusLineV, connection: ConnectionV },
    ResponseUpgrade { status: RStatusLineV, connection: ConnectionV, upgrade: Seq<char> },
    ResponseWithBody { status: RStatusLineV, connection: ConnectionV, length: usize },
    ResponseWithBodyChunks { status: RStatusLineV, connection: ConnectionV, chunk: Chunk },
    ResponseWithBodyCloseDelimited { status: RStatusLineV, connection: ConnectionV, back_closed: bool },
}

pub open spec fn opt_status_view(s: Option<RStatusLine>) -> Option<RStatusLineV> {
    match s {
        Some(s) => Some(s@),
        None => None,
    }
}

pub open spec fn opt_connection_view(c: Option<Connection>) -> Option<ConnectionV> {
    match c {
        Some(c) => Some(c@),
        None => None,
    }
}

pub open spec fn opt_text_view(s: Option<String>) -> Option<Seq<char>> {
    match s {
        Some(s) => Some(s@),
        None => None,
    }
}

impl View for ResponseState {
    type V = ResponseStateV;

    open spec fn view(&self) -> ResponseStateV {
        match self {
            ResponseState::Initial => ResponseStateV::Initial,
            ResponseState::Error { status, connection, upgrade, length, chunk } => ResponseStateV::Error {
                status: opt_status_view(*status),
                connection: opt_connection_view(*connection),
                upgrade: opt_text_view(*upgrade),
                length: *length,
                chunk: *chunk,
            },
            ResponseState::HasStatusLine { status, connection } => ResponseStateV::HasStatusLine {
                status: status@,
                connection: connection@,
            },
            ResponseState::HasUpgrade { status, connection, upgrade } => ResponseStateV::HasUpgrade {
                status: status@,
                connection: connection@,
                upgrade: upgrade@,
            },
            ResponseState::HasLength { status, connection, length } => ResponseStateV::HasLength {
                status: status@,
                connection: connection@,
                length: *length,
            },
            ResponseState::Response { status, connection } => ResponseStateV::Response {
                status: status@,
                connection: connection@,
            },
            ResponseState::ResponseUpgrade { status, connection, upgrade } => ResponseStateV::ResponseUpgrade {
                status: status@,
                connection: connection@,
                upgrade: upgrade@,
            },
            ResponseState::ResponseWithBody { status, connection, length } => ResponseStateV::ResponseWithBody {
                status: status@,
                connection: connection@,
                length: *length,
            },
            ResponseState::ResponseWithBodyChunks { status, connection, chunk } => ResponseStateV::ResponseWithBodyChunks {
                status: status@,
                connection: connection@,
                chunk: *chunk,
            },
            ResponseState::ResponseWithBodyCloseDelimited { status, connection, back_closed } =>
                ResponseStateV::ResponseWithBodyCloseDelimited {
                status: status@,
                connection: connection@,
                back_closed: *back_closed,
            },
        }
    }
}

impl ResponseStateV {
    /// The error state that keeps what this state knew.
    pub open spec fn into_error(self) -> ResponseStateV {
        match self {
            ResponseStateV::Initial => ResponseStateV::Error {
                status: None,
                connection: None,
                upgrade: None,
                length: None,
                chunk: None,
            },
            ResponseStateV::HasStatusLine { status, connection } => ResponseStateV::Error {
                status: Some(status),
                connection: Some(connection),
                upgrade: None,
                length: None,
                chunk: None,
            },
            ResponseStateV::HasLength { status, connection, length } => ResponseStateV::Error {
                status: Some(status),
                connection: Some(connection),
                upgrade: None,
                length: Some(length),
                chunk: None,
            },
            ResponseStateV::HasUpgrade { status, connection, upgrade } => ResponseStateV::Error {
                status: Some(status),
                connection: Some(connection),
                upgrade: Some(upgrade),
                length: None,
                chunk: None,
            },
            ResponseStateV::Response { status, connection } => ResponseStateV::Error {
                status: Some(status),
                connection: Some(connection),
                upgrade: None,
                length: None,
                chunk: None,
            },
            ResponseStateV::ResponseUpgrade { status, connection, upgrade } => ResponseStateV::Error {
                status: Some(status),
                connection: Some(connection),
                upgrade: Some(upgrade),
                length: None,
                chunk: None,
            },
            ResponseStateV::ResponseWithBody { status, connection, length } => ResponseStateV::Error {
                status: Some(status),
                connection: Some(connection),
                upgrade: None,
                length: Some(LengthInformation::Length(length)),
                chunk: None,
            },
            ResponseStateV::ResponseWithBodyChunks { status, connection, chunk } => ResponseStateV::Error {
                status: Some(status),
                connection: Some(connection),
                upgrade: None,
                length: None,
                chunk: Some(chunk),
            },
            ResponseStateV::ResponseWithBodyCloseDelimited { status, connection, .. } =>
                ResponseStateV::Error {
                status: Some(status),
                connection: Some(connection),
                upgrade: None,
                length: None,
                chunk: None,
            },
            err => err,
        }
    }

    pub open spec fn is_error(self) -> bool {
        self is Error
    }

    /// The states in which the head is parsed and the message is being forwarded.
    pub open spec fn is_proxying(self) -> bool {
        ||| self is Response
        ||| self is ResponseWithBody
        ||| self is ResponseWithBodyChunks
        ||| self is ResponseWithBodyCloseDelimited
    }

    pub open spec fn status_line(self) -> Option<RStatusLineV> {
        match self {
            ResponseStateV::HasStatusLine { status, .. } => Some(status),
            ResponseStateV::HasLength { status, .. } => Some(status),
            ResponseStateV::HasUpgrade { status, .. } => Some(status),
            ResponseStateV::Response { status, .. } => Some(status),
            ResponseStateV::ResponseUpgrade { status, .. } => Some(status),
            ResponseStateV::ResponseWithBody { status, .. } => Some(status),
            ResponseStateV::ResponseWithBodyCloseDelimited { status, .. } => Some(status),
            ResponseStateV::ResponseWithBodyChunks { status, .. } => Some(status),
            ResponseStateV::Error { status, .. } => status,
            ResponseStateV::Initial => None,
        }
    }

    pub open spec fn connection(self) -> Option<ConnectionV> {
        match self {
            ResponseStateV::HasStatusLine { connection, .. } => Some(connection),
            ResponseStateV::HasLength { connection, .. } => Some(connection),
            ResponseStateV::HasUpgrade { connection, .. } => Some(connection),
            ResponseStateV::Response { connection, .. } => Some(connection),
            ResponseStateV::ResponseUpgrade { connection, .. } => Some(connection),
            ResponseStateV::ResponseWithBody { connection, .. } => Some(connection),
            ResponseStateV::ResponseWithBodyCloseDelimited { connection, .. } => Some(connection),
            ResponseStateV::ResponseWithBodyChunks { connection, .. } => Some(connection),
            ResponseStateV::Error { connection, .. } => connection,
            ResponseStateV::Initial => None,
        }
    }

    /// This state with its connection replaced, where it has one.
    pub open spec fn with_connection(self, c: ConnectionV) -> ResponseStateV {
        match self {
            ResponseStateV::HasStatusLine { status, .. } => ResponseStateV::HasStatusLine {
                status,
                connection: c,
            },
            ResponseStateV::HasLength { status, length, .. } => ResponseStateV::HasLength {
                status,
                connection: c,
                length,
            },
            ResponseStateV::HasUpgrade { status, upgrade, .. } => ResponseStateV::HasUpgrade {
                status,
                connection: c,
                upgrade,
            },
            ResponseStateV::Response { status, .. } => ResponseStateV::Response {
                status,
                connection: c,
            },
            ResponseStateV::ResponseUpgrade { status, upgrade, .. } => ResponseStateV::ResponseUpgrade {
                status,
                connection: c,
                upgrade,
            },
            ResponseStateV::ResponseWithBody { status, length, .. } => ResponseStateV::ResponseWithBody {
                status,
                connection: c,
                length,
            },
            ResponseStateV::ResponseWithBodyCloseDelimited { status, back_closed, .. } =>
                ResponseStateV::ResponseWithBodyCloseDelimited { status, connection: c, back_closed },
            ResponseStateV::ResponseWithBodyChunks { status, chunk, .. } =>
                ResponseStateV::ResponseWithBodyChunks { status, connection: c, chunk },
            ResponseStateV::Error { status, connection, upgrade, length, chunk } => match connection {
                Some(_) => ResponseStateV::Error { status, connection: Some(c), upgrade, length, chunk },
                None => self,
            },
            ResponseStateV::Initial => self,
        }
    }

    /// Whether the connection to the backend stays open after this response.
    pub open spec fn should_keep_alive(self) -> bool {
        let version = match self.status_line() {
            Some(sl) => Some(sl.version),
            None => None,
        };
        let keep_alive = match self.connection() {
            Some(c) => Some(c.keep_alive),
            None => None,
        };
        match (version, keep_alive) {
            (_, Some(Some(true))) => true,
            (_, Some(Some(false))) => false,
            (Some(Version::V10), _) => false,
            (Some(Version::V11), _) => true,
            (_, _) => false,
        }
    }

    /// Where the data to copy ends, for a response without further parsing.
    pub open spec fn should_copy(self, position: usize) -> Option<int> {
        match self {
            ResponseStateV::ResponseWithBody { length, .. } => Some(position + length),
            ResponseStateV::Response { .. } => Some(position as int),
            _ => None,
        }
    }
}

impl ResponseState {
    pub fn into_error(self) -> (r: ResponseState)
        ensures
            r@ == self@.into_error(),
    {
        match self {
            ResponseState::Initial => ResponseState::Error {
                status: None,
                connection: None,
                upgrade: None,
                length: None,
                chunk: None,
            },
            ResponseState::HasStatusLine { status, connection } => ResponseState::Error {
                status: Some(status),
                connection: Some(connection),
                upgrade: None,
                length: None,
                chunk: None,
            },
            ResponseState::HasLength { status, connection, length } => ResponseState::Error {
                status: Some(status),
                connection: Some(connection),
                upgrade: None,
                length: Some(length),
                chunk: None,
            },
            ResponseState::HasUpgrade { status, connection, upgrade } => ResponseState::Error {
                status: Some(status),
                connection: Some(connection),
                upgrade: Some(upgrade),
                length: None,
                chunk: None,
            },
            ResponseState::Response { status, connection } => ResponseState::Error {
                status: Some(status),
                connection: Some(connection),
                upgrade: None,
                length: None,
                chunk: None,
            },
            ResponseState::ResponseUpgrade { status, connection, upgrade } => ResponseState::Error {
                status: Some(status),
                connection: Some(connection),
                upgrade: Some(upgrade),
                length: None,
                chunk: None,
            },
            ResponseState::ResponseWithBody { status, connection, length } => ResponseState::Error {
                status: Some(status),
                connection: Some(connection),
                upgrade: None,
                length: Some(LengthInformation::Length(length)),
                chunk: None,
            },
            ResponseState::ResponseWithBodyChunks { status, connection, chunk } => ResponseState::Error {
                status: Some(status),
                connection: Some(connection),
                upgrade: None,
                length: None,
                chunk: Some(chunk),
            },
            ResponseState::ResponseWithBodyCloseDelimited { status, connection, .. } =>
                ResponseState::Error {
                status: Some(status),
                connection: Some(connection),
                upgrade: None,
                length: None,
                chunk: None,
            },
            err => err,
        }
    }

    pub fn is_proxying(&self) -> (r: bool)
        ensures
            r == self@.is_proxying(),
    {
        match *self {
            ResponseState::Response { .. }
            | ResponseState::ResponseWithBody { .. }
            | ResponseState::ResponseWithBodyChunks { .. }
            | ResponseState::ResponseWithBodyCloseDelimited { .. } => true,
            _ => false,
        }
    }

    pub fn is_back_error(&self) -> (r: bool)
        ensures
            r == self@.is_error(),
    {
        if let ResponseState::Error { .. } = self {
            true
        } else {
            false
        }
    }

    pub fn get_status_line(&self) -> (r: Option<&RStatusLine>)
        ensures
            match r {
                Some(s) => self@.status_line() == Some(s@),
                None => self@.status_line() is None,
            },
    {
        match self {
            ResponseState::HasStatusLine { status, .. }
            | ResponseState::HasLength { status, .. }
            | ResponseState::HasUpgrade { status, .. }
            | ResponseState::Response { status, .. }
            | ResponseState::ResponseUpgrade { status, .. }
            | ResponseState::ResponseWithBody { status, .. }
            | ResponseState::ResponseWithBodyCloseDelimited { status, .. }
            | ResponseState::ResponseWithBodyChunks { status, .. } => Some(status),
            ResponseState::Error { status, .. } => status.as_ref(),
            _ => None,
        }
    }

    pub fn get_keep_alive(&self) -> (r: Option<Connection>)
        ensures
            opt_connection_view(r) == self@.connection(),
    {
        match self {
            ResponseState::HasStatusLine { connection, .. }
            | ResponseState::HasLength { connection, .. }
            | ResponseState::HasUpgrade { connection, .. }
            | ResponseState::Response { connection, .. }
            | ResponseState::ResponseUpgrade { connection, .. }
            | ResponseState::ResponseWithBody { connection, .. }
            | ResponseState::ResponseWithBodyCloseDelimited { connection, .. }
            | ResponseState::ResponseWithBodyChunks { connection, .. } => Some(connection.clone()),
            ResponseState::Error { connection, .. } => match connection {
                Some(c) => Some(c.clone()),
                None => None,
            },
            _ => None,
        }
    }

    pub fn get_mut_connection(&mut self) -> (r: Option<&mut Connection>)
        ensures
            match r {
                Some(c) => {
                    &&& old(self)@.connection() == Some(c@)
                    &&& final(self)@ == old(self)@.with_connection(final(c)@)
                },
                None => {
                    &&& old(self)@.connection() is None
                    &&& final(self)@ == old(self)@
                },
            },
    {
        match self {
            ResponseState::HasStatusLine { connection, .. } => Some(connection),
            ResponseState::HasLength { connection, .. } => Some(connection),
            ResponseState::HasUpgrade { connection, .. } => Some(connection),
            ResponseState::Response { connection, .. } => Some(connection),
            ResponseState::ResponseUpgrade { connection, .. } => Some(connection),
            ResponseState::ResponseWithBody { connection, .. } => Some(connection),
            ResponseState::ResponseWithBodyCloseDelimited { connection, .. } => Some(connection),
            ResponseState::ResponseWithBodyChunks { connection, .. } => Some(connection),
            ResponseState::Error { connection, .. } => match connection {
                Some(c) => Some(c),
                None => None,
            },
            _ => None,
        }
    }

    pub fn should_copy(&self, position: usize) -> (r: Option<usize>)
        requires
            self@ matches ResponseStateV::ResponseWithBody { length, .. } ==> position + length
                <= usize::MAX,
        ensures
            match r {
                Some(p) => self@.should_copy(position) == Some(p as int),
                None => self@.should_copy(position) is None,
            },
    {
        match *self {
            ResponseState::ResponseWithBody { length, .. } => Some(position + length),
            ResponseState::Response { .. } => Some(position),
            _ => None,
        }
    }

    pub fn should_keep_alive(&self) -> (r: bool)
        ensures
            r == self@.should_keep_alive(),
    {
        let sl = self.get_status_line();
        let version = match sl {
            Some(sl) => Some(sl.version),
            None => None,
        };
        let conn = self.get_keep_alive();
        let keep_alive = match conn {
            Some(c) => Some(c.keep_alive),
            None => None,
        };
        match (version, keep_alive) {
            (_, Some(Some(true))) => true,
            (_, Some(Some(false))) => false,
            (Some(Version::V10), _) => false,
            (Some(Version::V11), _) => true,
            (_, _) => false,
        }
    }

    pub fn should_chunk(&self) -> (r: bool)
        ensures
            r == (self@ is ResponseWithBodyChunks),
    {
        if let ResponseState::ResponseWithBodyChunks { .. } = *self {
            true
        } else {
            false
        }
    }
}


/// What the default handling of an unfinished parse does: a parse error makes
/// the state an error, missing input leaves it as it is.
pub open spec fn spec_default_response_result<O>(state: ResponseStateV, res: ParseResult<O>) -> (
    BufferMove,
    ResponseStateV,
) {
    match res {
        ParseResult::Incomplete => (BufferMove::Stay, state),
        _ => (BufferMove::Stay, state.into_error()),
    }
}

/// Handles a parser result that is not `Done`.
pub fn default_response_result<O>(state: ResponseState, res: ParseResult<O>) -> (r: (
    BufferMove,
    ResponseState,
))
    requires
        !(res is Done),
    ensures
        r.0 == spec_default_response_result(state@, res).0,
        r.1@ == spec_default_response_result(state@, res).1,
{
    match res {
        ParseResult::Error => (BufferMove::Stay, state.into_error()),
        ParseResult::Incomplete => (BufferMove::Stay, state),
        ParseResult::Done(_, _) => (BufferMove::Stay, state),
    }
}

/// A connection after a `Connection` header with these options.
pub open spec fn apply_connection_value(conn: ConnectionV, c: ConnectionValue) -> ConnectionV {
    let k1 = if c.has_close {
        Some(false)
    } else {
        conn.keep_alive
    };
    let k2 = if c.has_keep_alive {
        Some(true)
    } else {
        k1
    };
    ConnectionV {
        keep_alive: k2,
        has_upgrade: conn.has_upgrade || c.has_upgrade,
        upgrade: conn.upgrade,
        continues: conn.continues,
    }
}

/// A state that expects a body length, after a header giving one; a `HEAD`
/// response ignores it, and any other state may not receive one.
pub open spec fn with_length(state: ResponseStateV, length: LengthInformation, is_head: bool) -> ResponseStateV {
    match state {
        ResponseStateV::HasStatusLine { status, connection } => if is_head {
            state
        } else {
            ResponseStateV::HasLength { status, connection, length }
        },
        _ => state.into_error(),
    }
}

/// The state after one response header.
pub open spec fn spec_validate_response_header(
    state: ResponseStateV,
    value: HeaderValueV,
    is_head: bool,
) -> ResponseStateV {
    match value {
        HeaderValueV::ContentLength(sz) => with_length(state, LengthInformation::Length(sz), is_head),
        HeaderValueV::Encoding(TransferEncodingValue::Chunked) => with_length(
            state,
            LengthInformation::Chunked,
            is_head,
        ),
        HeaderValueV::Connection(c) => match state.connection() {
            Some(conn) => {
                let s2 = state.with_connection(apply_connection_value(conn, c));
                match s2 {
                    ResponseStateV::HasUpgrade { status, connection, upgrade } => if connection.has_upgrade {
                        s2
                    } else {
                        ResponseStateV::Error {
                            status: Some(status),
                            connection: Some(connection),
                            upgrade: Some(upgrade),
                            length: None,
                            chunk: None,
                        }
                    },
                    _ => s2,
                }
            },
            None => state.into_error(),
        },
        HeaderValueV::Upgrade(protocol) => match state {
            ResponseStateV::HasStatusLine { status, connection } => ResponseStateV::HasUpgrade {
                status,
                connection: ConnectionV { upgrade: Some(decode_utf8(protocol)), ..connection },
                upgrade: decode_utf8(protocol),
            },
            _ => state.into_error(),
        },
        HeaderValueV::Encoding(_) => state,
        HeaderValueV::Other(_, _) => state,
        HeaderValueV::Cookie(_) => state,
        _ => state.into_error(),
    }
}

/// Updates the state of a response with one of its headers.
pub fn validate_response_header(state: ResponseState, header: &Header, is_head: bool) -> (r: ResponseState)
    requires
        spec_header_value(header.name@, header.value@) matches HeaderValueV::Upgrade(p) ==> valid_utf8(p),
    ensures
        r@ == spec_validate_response_header(
            state@,
            spec_header_value(header.name@, header.value@),
            is_head,
        ),
{
    let mut state = state;
    match header.value() {
        HeaderValue::ContentLength(sz) => match state {
            ResponseState::HasStatusLine { status, connection } => if is_head {
                ResponseState::HasStatusLine { status, connection }
            } else {
                ResponseState::HasLength { status, connection, length: LengthInformation::Length(sz) }
            },
            s => s.into_error(),
        },
        HeaderValue::Encoding(TransferEncodingValue::Chunked) => match state {
            ResponseState::HasStatusLine { status, connection } => if is_head {
                ResponseState::HasStatusLine { status, connection }
            } else {
                ResponseState::HasLength { status, connection, length: LengthInformation::Chunked }
            },
            s => s.into_error(),
        },
        HeaderValue::Connection(c) => {
            let found = match state.get_mut_connection() {
                Some(conn) => {
                    if c.has_close {
                        conn.keep_alive = Some(false);
                    }
                    if c.has_keep_alive {
                        conn.keep_alive = Some(true);
                    }
                    if c.has_upgrade {
                        conn.has_upgrade = true;
                    }
                    true
                },
                None => false,
            };
            if found {
                match state {
                    ResponseState::HasUpgrade { status, connection, upgrade } => if connection.has_upgrade {
                        ResponseState::HasUpgrade { status, connection, upgrade }
                    } else {
                        ResponseState::Error {
                            status: Some(status),
                            connection: Some(connection),
                            upgrade: Some(upgrade),
                            length: None,
                            chunk: None,
                        }
                    },
                    s => s,
                }
            } else {
                state.into_error()
            }
        },
        HeaderValue::Upgrade(protocol) => {
            let proto = match utf8_string(protocol.as_slice()) {
                Some(p) => p,
                None => String::new(),
            };
            match state {
                ResponseState::HasStatusLine { status, connection } => {
                    let mut connection = connection;
                    connection.upgrade = Some(proto.clone());
                    ResponseState::HasUpgrade { status, connection, upgrade: proto }
                },
                s => s.into_error(),
            }
        },
        HeaderValue::Encoding(_) => state,
        HeaderValue::Host(_) => state.into_error(),
        HeaderValue::Forwarded(_) => state.into_error(),
        HeaderValue::XForwardedFor(_) => state.into_error(),
        HeaderValue::XForwardedProto => state.into_error(),
        HeaderValue::XForwardedPort => state.into_error(),
        HeaderValue::Other(_, _) => state,
        HeaderValue::ExpectContinue => state.into_error(),
        HeaderValue::Cookie(_) => state,
        HeaderValue::Error => state.into_error(),
    }
}


/// The status line that a parsed `HTTP/1.x NNN reason` line gives, if its
/// status is three decimal digits.
pub open spec fn spec_status_from_line(s: Seq<u8>, l: StatusLineRange) -> Option<RStatusLineV> {
    if is_digit(s[9]) && is_digit(s[10]) && is_digit(s[11]) {
        Some(
            RStatusLineV {
                version: l.version,
                status: ((s[9] - 48) * 100 + (s[10] - 48) * 10 + (s[11] - 48)) as u16,
                reason: ascii_chars(s.subrange(13, l.reason_end as int)),
            },
        )
    } else {
        None
    }
}

impl RStatusLine {
    /// The status line of the bytes `s`, whose status line parsed as `line`.
    pub fn from_status_line(s: &[u8], line: StatusLineRange) -> (r: Option<RStatusLine>)
        requires
            13 <= line.reason_end <= s@.len(),
            is_ascii_bytes(s@.subrange(13, line.reason_end as int)),
        ensures
            opt_status_view(r) == spec_status_from_line(s@, line),
    {
        let (a, b, c) = (s[9], s[10], s[11]);
        if 48 <= a && a <= 57 && 48 <= b && b <= 57 && 48 <= c && c <= 57 {
            let status: u16 = (a - 48) as u16 * 100 + (b - 48) as u16 * 10 + (c - 48) as u16;
            let reason = crate::text::ascii_string(&s[13..line.reason_end]);
            Some(RStatusLine { version: line.version, status, reason })
        } else {
            None
        }
    }
}

/// The name and the value of a header line that parsed as `h`.
pub open spec fn header_name(s: Seq<u8>, h: HeaderRange) -> Seq<u8> {
    s.subrange(0, h.name_end as int)
}

pub open spec fn header_value_bytes(s: Seq<u8>, h: HeaderRange) -> Seq<u8> {
    s.subrange(h.value_start as int, h.value_end as int)
}

/// Bytes of the header-value class are ASCII, valid UTF-8, one character each.
proof fn lemma_value_ascii(s: Seq<u8>, a: int, b: int)
    requires
        0 <= a <= b <= s.len(),
        forall|k: int| a <= k < b ==> in_class(CharClass::HeaderValue, #[trigger] s[k]),
    ensures
        is_ascii_bytes(s.subrange(a, b)),
        valid_utf8(s.subrange(a, b)),
        decode_utf8(s.subrange(a, b)) == ascii_chars(s.subrange(a, b)),
{
    let v = s.subrange(a, b);
    assert forall|i: int| 0 <= i < v.len() implies #[trigger] v[i] < 128 by {
        assert(in_class(CharClass::HeaderValue, s[a + i]));
    }
    lemma_ascii_utf8(v);
}

/// One header line ending at `i`: whether it is forwarded or deleted, and the new state.
pub open spec fn header_step(
    state: ResponseStateV,
    s: Seq<u8>,
    i: usize,
    h: HeaderRange,
    is_head: bool,
    sticky_name: Seq<u8>,
) -> (BufferMove, ResponseStateV) {
    let mv = if spec_should_delete(header_name(s, h), header_value_bytes(s, h), sticky_name) {
        BufferMove::Delete(i)
    } else {
        BufferMove::Advance(i)
    };
    (
        mv,
        spec_validate_response_header(
            state,
            spec_header_value(header_name(s, h), header_value_bytes(s, h)),
            is_head,
        ),
    )
}

/// Statuses whose responses never have a body: 1xx, 204 and 304.
pub open spec fn bodiless_status(status: u16) -> bool {
    status / 100 == 1 || status == 204 || status == 304
}

/// One step of the response parser on the bytes `s` that follow what was
/// already parsed: the move on the buffer and the next state.
pub open spec fn spec_parse_response(
    state: ResponseStateV,
    s: Seq<u8>,
    is_head: bool,
    sticky_name: Seq<u8>,
) -> (BufferMove, ResponseStateV) {
    match state {
        ResponseStateV::Initial => match spec_status_line(s) {
            ParseResult::Done(i, l) => match spec_status_from_line(s, l) {
                Some(status) => (
                    BufferMove::Advance(i),
                    ResponseStateV::HasStatusLine { status, connection: fresh_connection() },
                ),
                None => (BufferMove::Stay, ResponseStateV::Initial.into_error()),
            },
            r => spec_default_response_result(state, r),
        },
        ResponseStateV::HasStatusLine { status, connection } => match spec_message_header(s) {
            ParseResult::Done(i, h) => header_step(state, s, i, h, is_head, sticky_name),
            ParseResult::Incomplete => (BufferMove::Stay, state),
            ParseResult::Error => match spec_crlf(s) {
                ParseResult::Done(i, _) => if is_head || bodiless_status(status.status) {
                    (BufferMove::Advance(i), ResponseStateV::Response { status, connection })
                } else {
                    (
                        BufferMove::Advance(i),
                        ResponseStateV::ResponseWithBodyCloseDelimited {
                            status,
                            connection,
                            back_closed: false,
                        },
                    )
                },
                r => spec_default_response_result(state, r),
            },
        },
        ResponseStateV::HasLength { status, connection, length } => match spec_message_header(s) {
            ParseResult::Done(i, h) => header_step(state, s, i, h, is_head, sticky_name),
            ParseResult::Incomplete => (BufferMove::Stay, state),
            ParseResult::Error => match spec_crlf(s) {
                ParseResult::Done(i, _) => match length {
                    LengthInformation::Chunked => (
                        BufferMove::Advance(i),
                        ResponseStateV::ResponseWithBodyChunks {
                            status,
                            connection,
                            chunk: Chunk::Initial,
                        },
                    ),
                    LengthInformation::Length(sz) => (
                        BufferMove::Advance(i),
                        ResponseStateV::ResponseWithBody { status, connection, length: sz },
                    ),
                },
                r => spec_default_response_result(state, r),
            },
        },
        ResponseStateV::HasUpgrade { status, connection, upgrade } => match spec_message_header(s) {
            ParseResult::Done(i, h) => header_step(state, s, i, h, is_head, sticky_name),
            ParseResult::Incomplete => (BufferMove::Stay, state),
            ParseResult::Error => match spec_crlf(s) {
                ParseResult::Done(i, _) => (
                    BufferMove::Advance(i),
                    ResponseStateV::ResponseUpgrade { status, connection, upgrade },
                ),
                r => spec_default_response_result(state, r),
            },
        },
        ResponseStateV::ResponseWithBodyChunks { status, connection, chunk } => {
            let (mv, chunk) = spec_chunk_parse(chunk, s);
            (mv, ResponseStateV::ResponseWithBodyChunks { status, connection, chunk })
        },
        ResponseStateV::ResponseWithBodyCloseDelimited { .. } => (
            BufferMove::Advance(s.len() as usize),
            state,
        ),
        _ => (BufferMove::Stay, state.into_error()),
    }
}

/// What a parsing step promises of its move on the `len` bytes it was given.
pub open spec fn move_fits(mv: BufferMove, state: ResponseStateV, len: nat) -> bool {
    match mv {
        BufferMove::Advance(n) => if state is ResponseWithBodyCloseDelimited {
            n == len
        } else if state is ResponseWithBodyChunks {
            0 < n
        } else {
            0 < n <= len
        },
        BufferMove::Delete(n) => 0 < n <= len,
        BufferMove::Stay => true,
    }
}

/// One header line, shared by the states that still read headers.
fn header_line(
    state: ResponseState,
    buf: &[u8],
    i: usize,
    h: HeaderRange,
    is_head: bool,
    sticky_name: &str,
) -> (r: (BufferMove, ResponseState))
    requires
        spec_message_header(buf@) == ParseResult::Done(i, h),
        crate::grammar::header_range_ok(buf@, i, h),
        !(state@ is ResponseWithBodyCloseDelimited),
        forall|k: int|
            h.value_start <= k < h.value_end ==> in_class(CharClass::HeaderValue, #[trigger] buf@[k]),
    ensures
        r.0 == header_step(state@, buf@, i, h, is_head, sticky_name.spec_bytes()).0,
        r.1@ == header_step(state@, buf@, i, h, is_head, sticky_name.spec_bytes()).1,
        move_fits(r.0, state@, buf@.len()),
{
    proof {
        lemma_value_ascii(buf@, h.value_start as int, h.value_end as int);
    }
    let header = Header {
        name: slice_to_vec(&buf[0..h.name_end]),
        value: slice_to_vec(&buf[h.value_start..h.value_end]),
    };
    let delete = match &state {
        ResponseState::HasStatusLine { connection, .. }
        | ResponseState::HasLength { connection, .. }
        | ResponseState::HasUpgrade { connection, .. } => header.should_delete(connection, sticky_name),
        _ => header.should_delete(&Connection::new(), sticky_name),
    };
    let mv = if delete {
        BufferMove::Delete(i)
    } else {
        BufferMove::Advance(i)
    };
    (mv, validate_response_header(state, &header, is_head))
}

/// Parses what it can of a response head in `buf`, from the given state:
/// the move on the buffer and the next state.
pub fn parse_response(
    state: ResponseState,
    buf: &[u8],
    is_head: bool,
    sticky_name: &str,
    app_id: Option<&str>,
) -> (r: (BufferMove, ResponseState))
    ensures
        r.0 == spec_parse_response(state@, buf@, is_head, sticky_name.spec_bytes()).0,
        r.1@ == spec_parse_response(state@, buf@, is_head, sticky_name.spec_bytes()).1,
        move_fits(r.0, state@, buf@.len()),
{
    match state {
        ResponseState::Initial => match status_line(buf) {
            ParseResult::Done(i, l) => {
                proof {
                    lemma_value_ascii(buf@, 13, l.reason_end as int);
                }
                match RStatusLine::from_status_line(buf, l) {
                    Some(status) => {
                        let connection = Connection::new();
                        (BufferMove::Advance(i), ResponseState::HasStatusLine { status, connection })
                    },
                    None => (
                        BufferMove::Stay,
                        ResponseState::Error {
                            status: None,
                            connection: None,
                            upgrade: None,
                            length: None,
                            chunk: None,
                        },
                    ),
                }
            },
            ParseResult::Incomplete => default_response_result(
                ResponseState::Initial,
                ParseResult::<StatusLineRange>::Incomplete,
            ),
            ParseResult::Error => default_response_result(
                ResponseState::Initial,
                ParseResult::<StatusLineRange>::Error,
            ),
        },
        ResponseState::HasStatusLine { status, connection } => match message_header(buf) {
            ParseResult::Done(i, h) => header_line(
                ResponseState::HasStatusLine { status, connection },
                buf,
                i,
                h,
                is_head,
                sticky_name,
            ),
            ParseResult::Incomplete => (
                BufferMove::Stay,
                ResponseState::HasStatusLine { status, connection },
            ),
            ParseResult::Error => match crlf(buf) {
                ParseResult::Done(i, _) => {
                    if is_head || status.status / 100 == 1 || status.status == 204 || status.status
                        == 304 {
                        (BufferMove::Advance(i), ResponseState::Response { status, connection })
                    } else {
                        (
                            BufferMove::Advance(i),
                            ResponseState::ResponseWithBodyCloseDelimited {
                                status,
                                connection,
                                back_closed: false,
                            },
                        )
                    }
                },
                ParseResult::Incomplete => default_response_result(
                    ResponseState::HasStatusLine { status, connection },
                    ParseResult::<()>::Incomplete,
                ),
                ParseResult::Error => default_response_result(
                    ResponseState::HasStatusLine { status, connection },
                    ParseResult::<()>::Error,
                ),
            },
        },
        ResponseState::HasLength { status, connection, length } => match message_header(buf) {
            ParseResult::Done(i, h) => header_line(
                ResponseState::HasLength { status, connection, length },
                buf,
                i,
                h,
                is_head,
                sticky_name,
            ),
            ParseResult::Incomplete => (
                BufferMove::Stay,
                ResponseState::HasLength { status, connection, length },
            ),
            ParseResult::Error => match crlf(buf) {
                ParseResult::Done(i, _) => match length {
                    LengthInformation::Chunked => (
                        BufferMove::Advance(i),
                        ResponseState::ResponseWithBodyChunks {
                            status,
                            connection,
                            chunk: Chunk::Initial,
                        },
                    ),
                    LengthInformation::Length(sz) => (
                        BufferMove::Advance(i),
                        ResponseState::ResponseWithBody { status, connection, length: sz },
                    ),
                },
                ParseResult::Incomplete => default_response_result(
                    ResponseState::HasLength { status, connection, length },
                    ParseResult::<()>::Incomplete,
                ),
                ParseResult::Error => default_response_result(
                    ResponseState::HasLength { status, connection, length },
                    ParseResult::<()>::Error,
                ),
            },
        },
        ResponseState::HasUpgrade { status, connection, upgrade } => match message_header(buf) {
            ParseResult::Done(i, h) => header_line(
                ResponseState::HasUpgrade { status, connection, upgrade },
                buf,
                i,
                h,
                is_head,
                sticky_name,
            ),
            ParseResult::Incomplete => (
                BufferMove::Stay,
                ResponseState::HasUpgrade { status, connection, upgrade },
            ),
            ParseResult::Error => match crlf(buf) {
                ParseResult::Done(i, _) => (
                    BufferMove::Advance(i),
                    ResponseState::ResponseUpgrade { status, connection, upgrade },
                ),
                ParseResult::Incomplete => default_response_result(
                    ResponseState::HasUpgrade { status, connection, upgrade },
                    ParseResult::<()>::Incomplete,
                ),
                ParseResult::Error => default_response_result(
                    ResponseState::HasUpgrade { status, connection, upgrade },
                    ParseResult::<()>::Error,
                ),
            },
        },
        ResponseState::ResponseWithBodyChunks { status, connection, chunk } => {
            let (advance, chunk) = chunk.parse(buf);
            (advance, ResponseState::ResponseWithBodyChunks { status, connection, chunk })
        },
        ResponseState::ResponseWithBodyCloseDelimited { status, connection, back_closed } => (
            BufferMove::Advance(buf.len()),
            ResponseState::ResponseWithBodyCloseDelimited { status, connection, back_closed },
        ),
        _ => (BufferMove::Stay, state.into_error()),
    }
}

/// An error state is final: making it an error again changes nothing, and
/// every state becomes an error that keeps its status line and connection,
/// so whether the backend connection is kept alive does not change.
pub proof fn law_response_error_is_final(state: ResponseStateV)
    ensures
        state.into_error().is_error(),
        state.into_error().into_error() == state.into_error(),
        state.into_error().status_line() == state.status_line(),
        state.into_error().connection() == state.connection(),
        state.into_error().should_keep_alive() == state.should_keep_alive(),
{
}

/// What is written through the connection that `get_mut_connection` hands
/// out is what `get_keep_alive` reads afterwards, and the rest of the state
/// stays as it was.
pub proof fn law_response_connection_reads_back(state: ResponseStateV, c: ConnectionV)
    requires
        state.connection() is Some,
    ensures
        state.with_connection(c).connection() == Some(c),
        state.with_connection(c).status_line() == state.status_line(),
        state.with_connection(c).with_connection(state.connection()->0) == state,
{
}

/// With no bytes to read, a response whose head is not complete waits
/// where it is.
pub proof fn law_response_waits_without_input(state: ResponseStateV, is_head: bool, sticky_name: Seq<u8>)
    requires
        state is Initial || state is HasStatusLine || state is HasLength || state is HasUpgrade,
    ensures
        spec_parse_response(state, Seq::empty(), is_head, sticky_name) == (BufferMove::Stay, state),
{
    let e = Seq::<u8>::empty();
    assert(e.subrange(0, 0) =~= crate::grammar::http1_lit().subrange(0, 0));
}

/// A parsing step on a response that does not wait for more data gives the
/// same move and state whatever bytes follow the ones it read, except in a
/// body delimited by the closing of the connection, which takes all it is
/// given.
pub proof fn law_response_step_settles(
    state: ResponseStateV,
    s: Seq<u8>,
    t: Seq<u8>,
    is_head: bool,
    sticky_name: Seq<u8>,
)
    requires
        !(state is ResponseWithBodyCloseDelimited),
        (s + t).len() <= usize::MAX,
        spec_parse_response(state, s, is_head, sticky_name) != (BufferMove::Stay, state),
    ensures
        spec_parse_response(state, s + t, is_head, sticky_name) == spec_parse_response(
            state,
            s,
            is_head,
            sticky_name,
        ),
{
    let st = s + t;
    match state {
        ResponseStateV::Initial => {
            lemma_status_line_done(s);
            lemma_status_line_ext(s, t);
            if let ParseResult::Done(i, l) = spec_status_line(s) {
                assert(st.subrange(13, l.reason_end as int) =~= s.subrange(13, l.reason_end as int));
                assert(st[9] == s[9] && st[10] == s[10] && st[11] == s[11]);
                assert(spec_status_from_line(st, l) == spec_status_from_line(s, l));
            }
        },
        ResponseStateV::HasStatusLine { .. } | ResponseStateV::HasLength { .. } | ResponseStateV::HasUpgrade { .. } => {
            lemma_message_header_ext(s, t);
            lemma_message_header_done(s);
            match spec_message_header(s) {
                ParseResult::Done(i, h) => {
                    assert(header_name(st, h) =~= header_name(s, h));
                    assert(header_value_bytes(st, h) =~= header_value_bytes(s, h));
                },
                ParseResult::Error => {
                    lemma_crlf_ext(s, t);
                },
                ParseResult::Incomplete => {},
            }
        },
        ResponseStateV::ResponseWithBodyChunks { chunk, .. } => {
            lemma_chunk_parse_settles(chunk, s, t);
        },
        _ => {},
    }
}

} // verus!
