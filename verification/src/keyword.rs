//! Header names and values that the parsers recognise.
use vstd::prelude::*;

verus! {

/// Words that header names and values are compared with, up to case.
#[derive(Debug, Clone, Copy, PartialEq, Eq)]
pub enum Keyword {
    /// `host`
    Host,
    /// `content-length`
    ContentLength,
    /// `transfer-encoding`
    TransferEncoding,
    /// `connection`
    Connection,
    /// `upgrade`
    Upgrade,
    /// `cookie`
    Cookie,
    /// `forwarded`
    Forwarded,
    /// `x-forwarded-for`
    XForwardedFor,
    /// `x-forwarded-proto`
    XForwardedProto,
    /// `x-forwarded-port`
    XForwardedPort,
    /// `expect`
    Expect,
    /// `100-continue`
    Continue100,
    /// `chunked`
    Chunked,
    /// `compress`
    Compress,
    /// `deflate`
    Deflate,
    /// `gzip`
    Gzip,
    /// `identity`
    Identity,
    /// `close`
    Close,
    /// `keep-alive`
    KeepAlive,
    /// `set-cookie`
    SetCookie,
    /// `GET`
    MethodGet,
    /// `POST`
    MethodPost,
    /// `HEAD`
    MethodHead,
    /// `OPTIONS`
    MethodOptions,
    /// `PUT`
    MethodPut,
    /// `DELETE`
    MethodDelete,
    /// `TRACE`
    MethodTrace,
    /// `CONNECT`
    MethodConnect,
}

pub open spec fn kw(k: Keyword) -> Seq<u8> {
    match k {
        Keyword::Host => seq![104u8, 111u8, 115u8, 116u8],
        Keyword::ContentLength => seq![99u8, 111u8, 110u8, 116u8, 101u8, 110u8, 116u8, 45u8, 108u8, 101u8, 110u8, 103u8, 116u8, 104u8],
        Keyword::TransferEncoding => seq![116u8, 114u8, 97u8, 110u8, 115u8, 102u8, 101u8, 114u8, 45u8, 101u8, 110u8, 99u8, 111u8, 100u8, 105u8, 110u8, 103u8],
        Keyword::Connection => seq![99u8, 111u8, 110u8, 110u8, 101u8, 99u8, 116u8, 105u8, 111u8, 110u8],
        Keyword::Upgrade => seq![117u8, 112u8, 103u8, 114u8, 97u8, 100u8, 101u8],
        Keyword::Cookie => seq![99u8, 111u8, 111u8, 107u8, 105u8, 101u8],
        Keyword::Forwarded => seq![102u8, 111u8, 114u8, 119u8, 97u8, 114u8, 100u8, 101u8, 100u8],
        Keyword::XForwardedFor => seq![120u8, 45u8, 102u8, 111u8, 114u8, 119u8, 97u8, 114u8, 100u8, 101u8, 100u8, 45u8, 102u8, 111u8, 114u8],
        Keyword::XForwardedProto => seq![120u8, 45u8, 102u8, 111u8, 114u8, 119u8, 97u8, 114u8, 100u8, 101u8, 100u8, 45u8, 112u8, 114u8, 111u8, 116u8, 111u8],
        Keyword::XForwardedPort => seq![120u8, 45u8, 102u8, 111u8, 114u8, 119u8, 97u8, 114u8, 100u8, 101u8, 100u8, 45u8, 112u8, 111u8, 114u8, 116u8],
        Keyword::Expect => seq![101u8, 120u8, 112u8, 101u8, 99u8, 116u8],
        Keyword::Continue100 => seq![49u8, 48u8, 48u8, 45u8, 99u8, 111u8, 110u8, 116u8, 105u8, 110u8, 117u8, 101u8],
        Keyword::Chunked => seq![99u8, 104u8, 117u8, 110u8, 107u8, 101u8, 100u8],
        Keyword::Compress => seq![99u8, 111u8, 109u8, 112u8, 114u8, 101u8, 115u8, 115u8],
        Keyword::Deflate => seq![100u8, 101u8, 102u8, 108u8, 97u8, 116u8, 101u8],
        Keyword::Gzip => seq![103u8, 122u8, 105u8, 112u8],
        Keyword::Identity => seq![105u8, 100u8, 101u8, 110u8, 116u8, 105u8, 116u8, 121u8],
        Keyword::Close => seq![99u8, 108u8, 111u8, 115u8, 101u8],
        Keyword::KeepAlive => seq![107u8, 101u8, 101u8, 112u8, 45u8, 97u8, 108u8, 105u8, 118u8, 101u8],
        Keyword::SetCookie => seq![115u8, 101u8, 116u8, 45u8, 99u8, 111u8, 111u8, 107u8, 105u8, 101u8],
        Keyword::MethodGet => seq![71u8, 69u8, 84u8],
        Keyword::MethodPost => seq![80u8, 79u8, 83u8, 84u8],
        Keyword::MethodHead => seq![72u8, 69u8, 65u8, 68u8],
        Keyword::MethodOptions => seq![79u8, 80u8, 84u8, 73u8, 79u8, 78u8, 83u8],
        Keyword::MethodPut => seq![80u8, 85u8, 84u8],
        Keyword::MethodDelete => seq![68u8, 69u8, 76u8, 69u8, 84u8, 69u8],
        Keyword::MethodTrace => seq![84u8, 82u8, 65u8, 67u8, 69u8],
        Keyword::MethodConnect => seq![67u8, 79u8, 78u8, 78u8, 69u8, 67u8, 84u8],
    }
}

pub fn kw_bytes(k: Keyword) -> (v: Vec<u8>)
    ensures
        v@ == kw(k),
{
    let v: Vec<u8> = match k {
        Keyword::Host => vec![104u8, 111u8, 115u8, 116u8],
        Keyword::ContentLength => vec![99u8, 111u8, 110u8, 116u8, 101u8, 110u8, 116u8, 45u8, 108u8, 101u8, 110u8, 103u8, 116u8, 104u8],
        Keyword::TransferEncoding => vec![116u8, 114u8, 97u8, 110u8, 115u8, 102u8, 101u8, 114u8, 45u8, 101u8, 110u8, 99u8, 111u8, 100u8, 105u8, 110u8, 103u8],
        Keyword::Connection => vec![99u8, 111u8, 110u8, 110u8, 101u8, 99u8, 116u8, 105u8, 111u8, 110u8],
        Keyword::Upgrade => vec![117u8, 112u8, 103u8, 114u8, 97u8, 100u8, 101u8],
        Keyword::Cookie => vec![99u8, 111u8, 111u8, 107u8, 105u8, 101u8],
        Keyword::Forwarded => vec![102u8, 111u8, 114u8, 119u8, 97u8, 114u8, 100u8, 101u8, 100u8],
        Keyword::XForwardedFor => vec![120u8, 45u8, 102u8, 111u8, 114u8, 119u8, 97u8, 114u8, 100u8, 101u8, 100u8, 45u8, 102u8, 111u8, 114u8],
        Keyword::XForwardedProto => vec![120u8, 45u8, 102u8, 111u8, 114u8, 119u8, 97u8, 114u8, 100u8, 101u8, 100u8, 45u8, 112u8, 114u8, 111u8, 116u8, 111u8],
        Keyword::XForwardedPort => vec![120u8, 45u8, 102u8, 111u8, 114u8, 119u8, 97u8, 114u8, 100u8, 101u8, 100u8, 45u8, 112u8, 111u8, 114u8, 116u8],
        Keyword::Expect => vec![101u8, 120u8, 112u8, 101u8, 99u8, 116u8],
        Keyword::Continue100 => vec![49u8, 48u8, 48u8, 45u8, 99u8, 111u8, 110u8, 116u8, 105u8, 110u8, 117u8, 101u8],
        Keyword::Chunked => vec![99u8, 104u8, 117u8, 110u8, 107u8, 101u8, 100u8],
        Keyword::Compress => vec![99u8, 111u8, 109u8, 112u8, 114u8, 101u8, 115u8, 115u8],
        Keyword::Deflate => vec![100u8, 101u8, 102u8, 108u8, 97u8, 116u8, 101u8],
        Keyword::Gzip => vec![103u8, 122u8, 105u8, 112u8],
        Keyword::Identity => vec![105u8, 100u8, 101u8, 110u8, 116u8, 105u8, 116u8, 121u8],
        Keyword::Close => vec![99u8, 108u8, 111u8, 115u8, 101u8],
        Keyword::KeepAlive => vec![107u8, 101u8, 101u8, 112u8, 45u8, 97u8, 108u8, 105u8, 118u8, 101u8],
        Keyword::SetCookie => vec![115u8, 101u8, 116u8, 45u8, 99u8, 111u8, 111u8, 107u8, 105u8, 101u8],
        Keyword::MethodGet => vec![71u8, 69u8, 84u8],
        Keyword::MethodPost => vec![80u8, 79u8, 83u8, 84u8],
        Keyword::MethodHead => vec![72u8, 69u8, 65u8, 68u8],
        Keyword::MethodOptions => vec![79u8, 80u8, 84u8, 73u8, 79u8, 78u8, 83u8],
        Keyword::MethodPut => vec![80u8, 85u8, 84u8],
        Keyword::MethodDelete => vec![68u8, 69u8, 76u8, 69u8, 84u8, 69u8],
        Keyword::MethodTrace => vec![84u8, 82u8, 65u8, 67u8, 69u8],
        Keyword::MethodConnect => vec![67u8, 79u8, 78u8, 78u8, 69u8, 67u8, 84u8],
    };
    assert(v@ =~= kw(k));
    v
}

} // verus!
