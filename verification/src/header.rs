//! Parts of a request head, kept as positions in the buffer that holds it.
use vstd::prelude::*;
use vstd::utf8::{decode_utf8, valid_utf8};
use crate::grammar::{compare_no_case, eq_no_case, RequestLineRange};
use crate::keyword::{kw, kw_bytes, Keyword};
use crate::text::utf8_string;
use crate::types::{Method, MethodV, RRequestLine, RRequestLineV, Version};

verus! {

/// The request headers that the request parser reads.
#[derive(Debug, Clone, Copy, PartialEq, Eq, Structural)]
pub enum HeaderName {
    Host,
    ContentLength,
    TransferEncoding,
    Connection,
    Other,
}

/// What a slice of the buffer holds.
#[derive(Debug, Clone, Copy, PartialEq, Eq, Structural)]
pub enum Meta {
    HeaderName(HeaderName),
    HeaderValue,
    Method,
    Uri,
    /// The empty line that ends the head.
    HeadersEnd,
}

/// `len` bytes of the buffer from `start`.
#[derive(Debug, Clone, Copy, PartialEq, Eq, Structural)]
pub struct Slice {
    pub start: usize,
    pub len: usize,
    pub meta: Meta,
}

/// The bytes of a slice, if it lies within the buffer.
pub open spec fn spec_slice_data(s: Slice, buffer: Seq<u8>) -> Option<Seq<u8>> {
    if s.start + s.len <= buffer.len() {
        Some(buffer.subrange(s.start as int, s.start + s.len))
    } else {
        None
    }
}

impl Slice {
    pub fn new(start: usize, len: usize, meta: Meta) -> (r: Slice)
        ensures
            r == (Slice { start, len, meta }),
    {
        Slice { start, len, meta }
    }

    /// The bytes of this slice in `buffer`, if it lies within it.
    pub fn data<'a>(&self, buffer: &'a [u8]) -> (r: Option<&'a [u8]>)
        ensures
            match r {
                Some(d) => spec_slice_data(*self, buffer@) == Some(d@),
                None => spec_slice_data(*self, buffer@) is None,
            },
    {
        if self.start <= buffer.len() && self.len <= buffer.len() - self.start {
            Some(&buffer[self.start..self.start + self.len])
        } else {
            None
        }
    }
}

/// A request line, as positions in the buffer.
#[derive(Debug, Clone, Copy, PartialEq, Eq, Structural)]
pub struct RequestLine {
    pub method: Slice,
    pub uri: Slice,
    pub version: Version,
}

/// The request line that the grammar found.
pub open spec fn spec_request_line_of(l: RequestLineRange) -> RequestLine {
    RequestLine {
        method: Slice { start: 0, len: l.method_end, meta: Meta::Method },
        uri: Slice { start: l.uri_start, len: (l.uri_end - l.uri_start) as usize, meta: Meta::Uri },
        version: l.version,
    }
}

/// The method named by `m`, compared up to case; other names are kept as text.
pub open spec fn spec_method(m: Seq<u8>) -> Option<MethodV> {
    if eq_no_case(m, kw(Keyword::MethodGet)) {
        Some(MethodV::Get)
    } else if eq_no_case(m, kw(Keyword::MethodPost)) {
        Some(MethodV::Post)
    } else if eq_no_case(m, kw(Keyword::MethodHead)) {
        Some(MethodV::Head)
    } else if eq_no_case(m, kw(Keyword::MethodOptions)) {
        Some(MethodV::Options)
    } else if eq_no_case(m, kw(Keyword::MethodPut)) {
        Some(MethodV::Put)
    } else if eq_no_case(m, kw(Keyword::MethodDelete)) {
        Some(MethodV::Delete)
    } else if eq_no_case(m, kw(Keyword::MethodTrace)) {
        Some(MethodV::Trace)
    } else if eq_no_case(m, kw(Keyword::MethodConnect)) {
        Some(MethodV::Connect)
    } else if valid_utf8(m) {
        Some(MethodV::Custom(decode_utf8(m)))
    } else {
        None
    }
}

/// The owned request line of `l` in `buffer`: `None` where a part lies
/// outside the buffer or is not UTF-8.
pub open spec fn spec_to_rrequest_line(l: RequestLine, buffer: Seq<u8>) -> Option<RRequestLineV> {
    match (spec_slice_data(l.method, buffer), spec_slice_data(l.uri, buffer)) {
        (Some(m), Some(u)) => match spec_method(m) {
            Some(method) => if valid_utf8(u) {
                Some(RRequestLineV { method, uri: decode_utf8(u), version: l.version })
            } else {
                None
            },
            None => None,
        },
        _ => None,
    }
}

fn is_kw(m: &[u8], k: Keyword) -> (r: bool)
    ensures
        r == eq_no_case(m@, kw(k)),
{
    let w = kw_bytes(k);
    compare_no_case(m, w.as_slice())
}

impl Method {
    pub fn new(m: &[u8]) -> (r: Option<Method>)
        ensures
            match r {
                Some(method) => spec_method(m@) == Some(method@),
                None => spec_method(m@) is None,
            },
    {
        if is_kw(m, Keyword::MethodGet) {
            Some(Method::Get)
        } else if is_kw(m, Keyword::MethodPost) {
            Some(Method::Post)
        } else if is_kw(m, Keyword::MethodHead) {
            Some(Method::Head)
        } else if is_kw(m, Keyword::MethodOptions) {
            Some(Method::Options)
        } else if is_kw(m, Keyword::MethodPut) {
            Some(Method::Put)
        } else if is_kw(m, Keyword::MethodDelete) {
            Some(Method::Delete)
        } else if is_kw(m, Keyword::MethodTrace) {
            Some(Method::Trace)
        } else if is_kw(m, Keyword::MethodConnect) {
            Some(Method::Connect)
        } else {
            match utf8_string(m) {
                Some(s) => Some(Method::Custom(s)),
                None => None,
            }
        }
    }
}

impl RequestLine {
    /// The request line found by the grammar in a buffer.
    pub fn new(l: RequestLineRange) -> (r: RequestLine)
        requires
            l.method_end <= l.uri_start <= l.uri_end,
        ensures
            r == spec_request_line_of(l),
    {
        RequestLine {
            method: Slice::new(0, l.method_end, Meta::Method),
            uri: Slice::new(l.uri_start, l.uri_end - l.uri_start, Meta::Uri),
            version: l.version,
        }
    }

    pub fn to_rrequest_line(&self, buffer: &[u8]) -> (r: Option<RRequestLine>)
        ensures
            match r {
                Some(rl) => spec_to_rrequest_line(*self, buffer@) == Some(rl@),
                None => spec_to_rrequest_line(*self, buffer@) is None,
            },
    {
        let m = match self.method.data(buffer) {
            Some(m) => m,
            None => return None,
        };
        let u = match self.uri.data(buffer) {
            Some(u) => u,
            None => return None,
        };
        let method = match Method::new(m) {
            Some(method) => method,
            None => return None,
        };
        match utf8_string(u) {
            Some(uri) => Some(RRequestLine { method, uri, version: self.version }),
            None => None,
        }
    }
}

/// A request header, as positions in the buffer; the name slice says which header it is.
#[derive(Debug, Clone, Copy, PartialEq, Eq, Structural)]
pub struct Header {
    pub name: Slice,
    pub value: Slice,
}

/// Which header a name is, up to case.
pub open spec fn spec_header_name(name: Seq<u8>) -> HeaderName {
    if eq_no_case(name, kw(Keyword::Host)) {
        HeaderName::Host
    } else if eq_no_case(name, kw(Keyword::ContentLength)) {
        HeaderName::ContentLength
    } else if eq_no_case(name, kw(Keyword::TransferEncoding)) {
        HeaderName::TransferEncoding
    } else if eq_no_case(name, kw(Keyword::Connection)) {
        HeaderName::Connection
    } else {
        HeaderName::Other
    }
}

/// The header whose name is `buffer[name_start..name_end]` and whose value is
/// `buffer[value_start..value_end]`.
pub open spec fn spec_header(
    buffer: Seq<u8>,
    name_start: usize,
    name_end: usize,
    value_start: usize,
    value_end: usize,
) -> Header {
    Header {
        name: Slice {
            start: name_start,
            len: (name_end - name_start) as usize,
            meta: Meta::HeaderName(spec_header_name(buffer.subrange(name_start as int, name_end as int))),
        },
        value: Slice { start: value_start, len: (value_end - value_start) as usize, meta: Meta::HeaderValue },
    }
}

impl Header {
    pub fn new(
        buffer: &[u8],
        name_start: usize,
        name_end: usize,
        value_start: usize,
        value_end: usize,
    ) -> (r: Header)
        requires
            name_start <= name_end <= buffer@.len(),
            value_start <= value_end,
        ensures
            r == spec_header(buffer@, name_start, name_end, value_start, value_end),
    {
        let name = &buffer[name_start..name_end];
        let which = if is_kw(name, Keyword::Host) {
            HeaderName::Host
        } else if is_kw(name, Keyword::ContentLength) {
            HeaderName::ContentLength
        } else if is_kw(name, Keyword::TransferEncoding) {
            HeaderName::TransferEncoding
        } else if is_kw(name, Keyword::Connection) {
            HeaderName::Connection
        } else {
            HeaderName::Other
        };
        Header {
            name: Slice::new(name_start, name_end - name_start, Meta::HeaderName(which)),
            value: Slice::new(value_start, value_end - value_start, Meta::HeaderValue),
        }
    }
}

} // verus!
