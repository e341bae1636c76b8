//! A header line of a message, and what its value means.
use vstd::prelude::*;
use vstd::string::StringSliceAdditionalSpecFns;
use vstd::slice::slice_to_vec;
use crate::grammar::{
    compare_no_case, eq_no_case, has_prefix, list_contains, list_has, parse_usize, spec_parse_usize,
    starts_with,
};
use crate::keyword::{kw, kw_bytes, Keyword};
use crate::types::Connection;

verus! {

/// One `name: value` header line.
#[derive(Debug, Clone, PartialEq)]
pub struct Header {
    pub name: Vec<u8>,
    pub value: Vec<u8>,
}

/// Values of `Transfer-Encoding`.
#[derive(Debug, Clone, Copy, PartialEq, Eq, Structural)]
pub enum TransferEncodingValue {
    Chunked,
    Compress,
    Deflate,
    Gzip,
    Identity,
    Unknown,
}

/// The options listed in a `Connection` header.
#[derive(Debug, Clone, Copy, PartialEq, Eq, Structural)]
pub struct ConnectionValue {
    pub has_close: bool,
    pub has_keep_alive: bool,
    pub has_upgrade: bool,
}

/// What a header line says.
#[derive(Debug, Clone, PartialEq)]
pub enum HeaderValue {
    Host(Vec<u8>),
    ContentLength(usize),
    Encoding(TransferEncodingValue),
    Connection(ConnectionValue),
    Upgrade(Vec<u8>),
    Cookie(Vec<u8>),
    /// A header whose value could not be read (such as a `Content-Length` that is no number).
    Error,
    Other(Vec<u8>, Vec<u8>),
    ExpectContinue,
    Forwarded(Vec<u8>),
    XForwardedFor(Vec<u8>),
    XForwardedProto,
    XForwardedPort,
}

/// Mathematical model of a [`HeaderValue`].
pub enum HeaderValueV {
    Host(Seq<u8>),
    ContentLength(usize),
    Encoding(TransferEncodingValue),
    Connection(ConnectionValue),
    Upgrade(Seq<u8>),
    Cookie(Seq<u8>),
    Error,
    Other(Seq<u8>, Seq<u8>),
    ExpectContinue,
    Forwarded(Seq<u8>),
    XForwardedFor(Seq<u8>),
    XForwardedProto,
    XForwardedPort,
}

impl View for HeaderValue {
    type V = HeaderValueV;

    open spec fn view(&self) -> HeaderValueV {
        match self {
            HeaderValue::Host(v) => HeaderValueV::Host(v@),
            HeaderValue::ContentLength(n) => HeaderValueV::ContentLength(*n),
            HeaderValue::Encoding(e) => HeaderValueV::Encoding(*e),
            HeaderValue::Connection(c) => HeaderValueV::Connection(*c),
            HeaderValue::Upgrade(v) => HeaderValueV::Upgrade(v@),
            HeaderValue::Cookie(v) => HeaderValueV::Cookie(v@),
            HeaderValue::Error => HeaderValueV::Error,
            HeaderValue::Other(n, v) => HeaderValueV::Other(n@, v@),
            HeaderValue::ExpectContinue => HeaderValueV::ExpectContinue,
            HeaderValue::Forwarded(v) => HeaderValueV::Forwarded(v@),
            HeaderValue::XForwardedFor(v) => HeaderValueV::XForwardedFor(v@),
            HeaderValue::XForwardedProto => HeaderValueV::XForwardedProto,
            HeaderValue::XForwardedPort => HeaderValueV::XForwardedPort,
        }
    }
}

/// The `Transfer-Encoding` named by a header value.
pub open spec fn spec_transfer_encoding(v: Seq<u8>) -> TransferEncodingValue {
    if list_has(v, 0, kw(Keyword::Chunked)) {
        TransferEncodingValue::Chunked
    } else if eq_no_case(v, kw(Keyword::Compress)) {
        TransferEncodingValue::Compress
    } else if eq_no_case(v, kw(Keyword::Deflate)) {
        TransferEncodingValue::Deflate
    } else if eq_no_case(v, kw(Keyword::Gzip)) {
        TransferEncodingValue::Gzip
    } else if eq_no_case(v, kw(Keyword::Identity)) {
        TransferEncodingValue::Identity
    } else {
        TransferEncodingValue::Unknown
    }
}

/// The options of a `Connection` header value.
pub open spec fn spec_connection_value(v: Seq<u8>) -> ConnectionValue {
    ConnectionValue {
        has_close: list_has(v, 0, kw(Keyword::Close)),
        has_keep_alive: list_has(v, 0, kw(Keyword::KeepAlive)),
        has_upgrade: list_has(v, 0, kw(Keyword::Upgrade)),
    }
}

/// What the header `name: value` says; names are compared up to case.
pub open spec fn spec_header_value(name: Seq<u8>, value: Seq<u8>) -> HeaderValueV {
    if eq_no_case(name, kw(Keyword::Host)) {
        HeaderValueV::Host(value)
    } else if eq_no_case(name, kw(Keyword::ContentLength)) {
        match spec_parse_usize(value) {
            Some(n) => HeaderValueV::ContentLength(n),
            None => HeaderValueV::Error,
        }
    } else if eq_no_case(name, kw(Keyword::TransferEncoding)) {
        HeaderValueV::Encoding(spec_transfer_encoding(value))
    } else if eq_no_case(name, kw(Keyword::Connection)) {
        HeaderValueV::Connection(spec_connection_value(value))
    } else if eq_no_case(name, kw(Keyword::Upgrade)) {
        HeaderValueV::Upgrade(value)
    } else if eq_no_case(name, kw(Keyword::Cookie)) {
        HeaderValueV::Cookie(value)
    } else if eq_no_case(name, kw(Keyword::Forwarded)) {
        HeaderValueV::Forwarded(value)
    } else if eq_no_case(name, kw(Keyword::XForwardedFor)) {
        HeaderValueV::XForwardedFor(value)
    } else if eq_no_case(name, kw(Keyword::XForwardedProto)) {
        HeaderValueV::XForwardedProto
    } else if eq_no_case(name, kw(Keyword::XForwardedPort)) {
        HeaderValueV::XForwardedPort
    } else if eq_no_case(name, kw(Keyword::Expect)) && eq_no_case(value, kw(Keyword::Continue100)) {
        HeaderValueV::ExpectContinue
    } else {
        HeaderValueV::Other(name, value)
    }
}

/// Whether a response header is removed on its way to the client: the
/// `Connection` header (the proxy writes its own), and a `Set-Cookie` that
/// sets the sticky session cookie.
pub open spec fn spec_should_delete(name: Seq<u8>, value: Seq<u8>, sticky_name: Seq<u8>) -> bool {
    eq_no_case(name, kw(Keyword::Connection)) || (eq_no_case(name, kw(Keyword::SetCookie))
        && starts_with(value, sticky_name))
}

fn name_is(name: &[u8], k: Keyword) -> (r: bool)
    ensures
        r == eq_no_case(name@, kw(k)),
{
    let w = kw_bytes(k);
    compare_no_case(name, w.as_slice())
}

fn list_holds(v: &[u8], k: Keyword) -> (r: bool)
    ensures
        r == list_has(v@, 0, kw(k)),
{
    let w = kw_bytes(k);
    list_contains(v, w.as_slice())
}

pub fn transfer_encoding(v: &[u8]) -> (r: TransferEncodingValue)
    ensures
        r == spec_transfer_encoding(v@),
{
    if list_holds(v, Keyword::Chunked) {
        TransferEncodingValue::Chunked
    } else if name_is(v, Keyword::Compress) {
        TransferEncodingValue::Compress
    } else if name_is(v, Keyword::Deflate) {
        TransferEncodingValue::Deflate
    } else if name_is(v, Keyword::Gzip) {
        TransferEncodingValue::Gzip
    } else if name_is(v, Keyword::Identity) {
        TransferEncodingValue::Identity
    } else {
        TransferEncodingValue::Unknown
    }
}

pub fn connection_value(v: &[u8]) -> (r: ConnectionValue)
    ensures
        r == spec_connection_value(v@),
{
    ConnectionValue {
        has_close: list_holds(v, Keyword::Close),
        has_keep_alive: list_holds(v, Keyword::KeepAlive),
        has_upgrade: list_holds(v, Keyword::Upgrade),
    }
}

impl Header {
    /// What this header says.
    pub fn value(&self) -> (r: HeaderValue)
        ensures
            r@ == spec_header_value(self.name@, self.value@),
    {
        let name = self.name.as_slice();
        let value = self.value.as_slice();
        if name_is(name, Keyword::Host) {
            HeaderValue::Host(slice_to_vec(value))
        } else if name_is(name, Keyword::ContentLength) {
            match parse_usize(value) {
                Some(n) => HeaderValue::ContentLength(n),
                None => HeaderValue::Error,
            }
        } else if name_is(name, Keyword::TransferEncoding) {
            HeaderValue::Encoding(transfer_encoding(value))
        } else if name_is(name, Keyword::Connection) {
            HeaderValue::Connection(connection_value(value))
        } else if name_is(name, Keyword::Upgrade) {
            HeaderValue::Upgrade(slice_to_vec(value))
        } else if name_is(name, Keyword::Cookie) {
            HeaderValue::Cookie(slice_to_vec(value))
        } else if name_is(name, Keyword::Forwarded) {
            HeaderValue::Forwarded(slice_to_vec(value))
        } else if name_is(name, Keyword::XForwardedFor) {
            HeaderValue::XForwardedFor(slice_to_vec(value))
        } else if name_is(name, Keyword::XForwardedProto) {
            HeaderValue::XForwardedProto
        } else if name_is(name, Keyword::XForwardedPort) {
            HeaderValue::XForwardedPort
        } else if name_is(name, Keyword::Expect) && name_is(value, Keyword::Continue100) {
            HeaderValue::ExpectContinue
        } else {
            HeaderValue::Other(slice_to_vec(name), slice_to_vec(value))
        }
    }

    /// Whether this response header is left out of what is sent to the client.
    pub fn should_delete(&self, conn: &Connection, sticky_name: &str) -> (r: bool)
        ensures
            r == spec_should_delete(self.name@, self.value@, sticky_name.spec_bytes()),
    {
        let name = self.name.as_slice();
        if name_is(name, Keyword::Connection) {
            true
        } else if name_is(name, Keyword::SetCookie) {
            has_prefix(self.value.as_slice(), sticky_name.as_bytes())
        } else {
            false
        }
    }
}

} // verus!
