//! Values shared by the request and the response parsers: HTTP versions,
//! methods, request and status lines, connection properties, body length
//! information and the state of a chunked body.
use vstd::prelude::*;

verus! {

/// HTTP protocol version of a request or status line.
#[derive(Debug, Clone, Copy, PartialEq, Eq, Structural)]
pub enum Version {
    V10,
    V11,
}

/// Request method; methods other than the standard ones keep their name.
#[derive(Debug, PartialEq)]
pub enum Method {
    Get,
    Post,
    Head,
    Options,
    Put,
    Delete,
    Trace,
    Connect,
    Custom(String),
}

/// Mathematical model of a [`Method`].
pub enum MethodV {
    Get,
    Post,
    Head,
    Options,
    Put,
    Delete,
    Trace,
    Connect,
    Custom(Seq<char>),
}

impl View for Method {
    type V = MethodV;

    open spec fn view(&self) -> MethodV {
        match self {
            Method::Get => MethodV::Get,
            Method::Post => MethodV::Post,
            Method::Head => MethodV::Head,
            Method::Options => MethodV::Options,
            Method::Put => MethodV::Put,
            Method::Delete => MethodV::Delete,
            Method::Trace => MethodV::Trace,
            Method::Connect => MethodV::Connect,
            Method::Custom(s) => MethodV::Custom(s@),
        }
    }
}

impl Clone for Method {
    fn clone(&self) -> (r: Self)
        ensures
            r@ == self@,
    {
        match self {
            Method::Get => Method::Get,
            Method::Post => Method::Post,
            Method::Head => Method::Head,
            Method::Options => Method::Options,
            Method::Put => Method::Put,
            Method::Delete => Method::Delete,
            Method::Trace => Method::Trace,
            Method::Connect => Method::Connect,
            Method::Custom(s) => Method::Custom(s.clone()),
        }
    }
}


/// A parsed request line, with owned values.
#[derive(Debug, PartialEq)]
pub struct RRequestLine {
    pub method: Method,
    pub uri: String,
    pub version: Version,
}

/// Mathematical model of a [`RRequestLine`].
pub struct RRequestLineV {
    pub method: MethodV,
    pub uri: Seq<char>,
    pub version: Version,
}

impl View for RRequestLine {
    type V = RRequestLineV;

    open spec fn view(&self) -> RRequestLineV {
        RRequestLineV { method: self.method@, uri: self.uri@, version: self.version }
    }
}

impl Clone for RRequestLine {
    fn clone(&self) -> (r: Self)
        ensures
            r@ == self@,
    {
        RRequestLine { method: self.method.clone(), uri: self.uri.clone(), version: self.version }
    }
}

/// A parsed status line, with owned values.
#[derive(Debug, PartialEq)]
pub struct RStatusLine {
    pub version: Version,
    pub status: u16,
    pub reason: String,
}

/// Mathematical model of a [`RStatusLine`].
pub struct RStatusLineV {
    pub version: Version,
    pub status: u16,
    pub reason: Seq<char>,
}

impl View for RStatusLine {
    type V = RStatusLineV;

    open spec fn view(&self) -> RStatusLineV {
        RStatusLineV { version: self.version, status: self.status, reason: self.reason@ }
    }
}

impl Clone for RStatusLine {
    fn clone(&self) -> (r: Self)
        ensures
            r@ == self@,
    {
        RStatusLine { version: self.version, status: self.status, reason: self.reason.clone() }
    }
}

/// Whether the client announced `Expect: 100-continue`.
#[derive(Debug, Clone, Copy, PartialEq, Eq, Structural)]
pub enum Continue {
    NotExpected,
    Expects(usize),
}

/// What the headers said of the connection.
#[derive(Debug, PartialEq)]
pub struct Connection {
    /// `Some(true)` for `Connection: keep-alive`, `Some(false)` for `close`.
    pub keep_alive: Option<bool>,
    pub has_upgrade: bool,
    pub upgrade: Option<String>,
    pub continues: Continue,
}

/// Mathematical model of a [`Connection`].
pub struct ConnectionV {
    pub keep_alive: Option<bool>,
    pub has_upgrade: bool,
    pub upgrade: Option<Seq<char>>,
    pub continues: Continue,
}

pub open spec fn opt_string_view(s: Option<String>) -> Option<Seq<char>> {
    match s {
        Some(s) => Some(s@),
        None => None,
    }
}

impl View for Connection {
    type V = ConnectionV;

    open spec fn view(&self) -> ConnectionV {
        ConnectionV {
            keep_alive: self.keep_alive,
            has_upgrade: self.has_upgrade,
            upgrade: opt_string_view(self.upgrade),
            continues: self.continues,
        }
    }
}

/// The connection of a message whose headers said nothing of it.
pub open spec fn fresh_connection() -> ConnectionV {
    ConnectionV { keep_alive: None, has_upgrade: false, upgrade: None, continues: Continue::NotExpected }
}

impl Connection {
    pub fn new() -> (r: Connection)
        ensures
            r@ == fresh_connection(),
    {
        Connection { keep_alive: None, has_upgrade: false, upgrade: None, continues: Continue::NotExpected }
    }
}

impl Clone for Connection {
    fn clone(&self) -> (r: Self)
        ensures
            r@ == self@,
    {
        let upgrade = match &self.upgrade {
            Some(u) => Some(u.clone()),
            None => None,
        };
        Connection {
            keep_alive: self.keep_alive,
            has_upgrade: self.has_upgrade,
            upgrade,
            continues: self.continues,
        }
    }
}

/// How the length of a body is known.
#[derive(Debug, Clone, Copy, PartialEq, Eq, Structural)]
pub enum LengthInformation {
    Length(usize),
    Chunked,
}

/// Progress through a chunked body.
#[derive(Debug, Clone, Copy, PartialEq, Eq, Structural)]
pub enum Chunk {
    /// Expecting the first chunk header.
    Initial,
    /// The data of a chunk was handed out; expecting its CRLF and the next header.
    Copying,
    /// The last (empty) chunk was seen; expecting trailers and the final CRLF.
    CopyingLastHeader,
    Ended,
    Error,
}

/// What a parsing step asks of the buffer.
#[derive(Debug, Clone, Copy, PartialEq, Eq, Structural)]
pub enum BufferMove {
    /// Leave the buffer as it is: more input is needed, or parsing stopped.
    Stay,
    /// Hand the next bytes over to the output.
    Advance(usize),
    /// Drop the next bytes from the output.
    Delete(usize),
}

} // verus!
