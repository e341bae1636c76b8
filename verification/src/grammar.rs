//! The HTTP/1.x grammar as streaming parsers on bytes.
//!
//! Every parser looks at a byte slice and answers `Done(end, value)` when the
//! construct is complete and ends at `end`, `Incomplete` when the bytes so far
//! are a proper prefix of the construct, and `Error` when they cannot start it.
use vstd::prelude::*;
use crate::types::Version;

verus! {

/// Outcome of a streaming parser.
#[derive(Debug, PartialEq, Eq)]
pub enum ParseResult<T> {
    /// The construct ends at this position (for a parser that starts at 0:
    /// the number of bytes it consumed).
    Done(usize, T),
    /// More input is needed.
    Incomplete,
    /// The input does not match.
    Error,
}

/// Byte classes of the grammar.
#[derive(Debug, Clone, Copy, PartialEq, Eq)]
pub enum CharClass {
    /// RFC 7230 `tchar`.
    Token,
    /// Space or horizontal tab.
    Space,
    /// Tab and visible ASCII, with space.
    HeaderValue,
    /// Visible ASCII, without space.
    UriChar,
    Hex,
    Digit,
    NotComma,
}

pub open spec fn is_alpha(b: u8) -> bool {
    (65 <= b <= 90) || (97 <= b <= 122)
}

pub open spec fn is_digit(b: u8) -> bool {
    48 <= b <= 57
}

pub open spec fn is_token_punct(b: u8) -> bool {
    // ! # $ % & ' * + - . ^ _ ` | ~
    b == 33 || b == 35 || b == 36 || b == 37 || b == 38 || b == 39 || b == 42 || b == 43 || b
        == 45 || b == 46 || b == 94 || b == 95 || b == 96 || b == 124 || b == 126
}

pub open spec fn in_class(c: CharClass, b: u8) -> bool {
    match c {
        CharClass::Token => is_alpha(b) || is_digit(b) || is_token_punct(b),
        CharClass::Space => b == 32 || b == 9,
        CharClass::HeaderValue => b == 9 || (32 <= b <= 126),
        CharClass::UriChar => 33 <= b <= 126,
        CharClass::Hex => is_digit(b) || (65 <= b <= 70) || (97 <= b <= 102),
        CharClass::Digit => is_digit(b),
        CharClass::NotComma => b != 44,
    }
}

pub fn is_in_class(c: CharClass, b: u8) -> (r: bool)
    ensures
        r == in_class(c, b),
{
    match c {
        CharClass::Token => (65 <= b && b <= 90) || (97 <= b && b <= 122) || (48 <= b && b <= 57)
            || b == 33 || b == 35 || b == 36 || b == 37 || b == 38 || b == 39 || b == 42 || b
            == 43 || b == 45 || b == 46 || b == 94 || b == 95 || b == 96 || b == 124 || b == 126,
        CharClass::Space => b == 32 || b == 9,
        CharClass::HeaderValue => b == 9 || (32 <= b && b <= 126),
        CharClass::UriChar => 33 <= b && b <= 126,
        CharClass::Hex => (48 <= b && b <= 57) || (65 <= b && b <= 70) || (97 <= b && b <= 102),
        CharClass::Digit => 48 <= b && b <= 57,
        CharClass::NotComma => b != 44,
    }
}

/// End of the longest run of bytes of class `c` starting at `i`.
pub open spec fn span(s: Seq<u8>, i: int, c: CharClass) -> int
    decreases s.len() - i,
{
    if 0 <= i < s.len() && in_class(c, s[i]) {
        span(s, i + 1, c)
    } else {
        i
    }
}

pub proof fn lemma_span(s: Seq<u8>, i: int, c: CharClass)
    requires
        0 <= i <= s.len(),
    ensures
        i <= span(s, i, c) <= s.len(),
        forall|k: int| i <= k < span(s, i, c) ==> in_class(c, #[trigger] s[k]),
        span(s, i, c) < s.len() ==> !in_class(c, s[span(s, i, c)]),
    decreases s.len() - i,
{
    if i < s.len() && in_class(c, s[i]) {
        lemma_span(s, i + 1, c);
    }
}

/// Position after the longest run of class `c` starting at `i`.
pub fn scan(s: &[u8], i: usize, c: CharClass) -> (r: usize)
    requires
        i <= s@.len(),
    ensures
        r == span(s@, i as int, c),
        i <= r <= s@.len(),
{
    proof {
        lemma_span(s@, i as int, c);
    }
    let mut j = i;
    while j < s.len() && is_in_class(c, s[j])
        invariant
            i <= j <= s@.len(),
            span(s@, j as int, c) == span(s@, i as int, c),
        decreases s@.len() - j,
    {
        j = j + 1;
    }
    j
}

/// Streaming `take_while`: the run must be followed by a byte outside the class.
pub open spec fn take_while(s: Seq<u8>, i: int, c: CharClass) -> ParseResult<()> {
    let e = span(s, i, c);
    if e >= s.len() {
        ParseResult::Incomplete
    } else {
        ParseResult::Done(e as usize, ())
    }
}

/// Streaming `take_while1`: as `take_while`, and the run may not be empty.
pub open spec fn take_while1(s: Seq<u8>, i: int, c: CharClass) -> ParseResult<()> {
    let e = span(s, i, c);
    if e >= s.len() {
        ParseResult::Incomplete
    } else if e == i {
        ParseResult::Error
    } else {
        ParseResult::Done(e as usize, ())
    }
}

pub fn take_while_at(s: &[u8], i: usize, c: CharClass) -> (r: ParseResult<()>)
    requires
        i <= s@.len(),
    ensures
        r == take_while(s@, i as int, c),
        r matches ParseResult::Done(e, _) ==> i <= e < s@.len() && forall|k: int|
            i <= k < e ==> in_class(c, #[trigger] s@[k]),
{
    proof {
        lemma_span(s@, i as int, c);
    }
    let e = scan(s, i, c);
    if e >= s.len() {
        ParseResult::Incomplete
    } else {
        ParseResult::Done(e, ())
    }
}

pub fn take_while1_at(s: &[u8], i: usize, c: CharClass) -> (r: ParseResult<()>)
    requires
        i <= s@.len(),
    ensures
        r == take_while1(s@, i as int, c),
        r matches ParseResult::Done(e, _) ==> i < e < s@.len() && forall|k: int|
            i <= k < e ==> in_class(c, #[trigger] s@[k]),
{
    proof {
        lemma_span(s@, i as int, c);
    }
    let e = scan(s, i, c);
    if e >= s.len() {
        ParseResult::Incomplete
    } else if e == i {
        ParseResult::Error
    } else {
        ParseResult::Done(e, ())
    }
}

/// Streaming `tag`: the literal `l` at position `i`.
pub open spec fn lit_at(s: Seq<u8>, i: int, l: Seq<u8>) -> ParseResult<()> {
    if i + l.len() <= s.len() {
        if s.subrange(i, i + l.len()) == l {
            ParseResult::Done((i + l.len()) as usize, ())
        } else {
            ParseResult::Error
        }
    } else if s.subrange(i, s.len() as int) == l.subrange(0, s.len() - i) {
        ParseResult::Incomplete
    } else {
        ParseResult::Error
    }
}

pub fn lit(s: &[u8], i: usize, l: &[u8]) -> (r: ParseResult<()>)
    requires
        i <= s@.len(),
    ensures
        r == lit_at(s@, i as int, l@),
        r matches ParseResult::Done(e, _) ==> e == i + l@.len() && e <= s@.len(),
{
    let mut k: usize = 0;
    while k < l.len() && k < s.len() - i
        invariant
            k <= l@.len(),
            i + k <= s@.len(),
            i <= s@.len(),
            forall|j: int| 0 <= j < k ==> s@[i + j] == l@[j],
        decreases l@.len() - k,
    {
        if s[i + k] != l[k] {
            proof {
                if i + l@.len() <= s@.len() {
                    assert(s@.subrange(i as int, i + l@.len())[k as int] != l@[k as int]);
                } else {
                    assert(s@.subrange(i as int, s@.len() as int)[k as int] != l@.subrange(
                        0,
                        s@.len() - i,
                    )[k as int]);
                }
            }
            return ParseResult::Error;
        }
        k = k + 1;
    }
    if k == l.len() {
        let n = s.len();
        assert(i + k <= n);
        assert(s@.subrange(i as int, i + l@.len()) =~= l@);
        ParseResult::Done(i + k, ())
    } else {
        assert(s@.subrange(i as int, s@.len() as int) =~= l@.subrange(0, s@.len() - i));
        ParseResult::Incomplete
    }
}

/// Carries an unfinished outcome over to another result type.
pub open spec fn fail_as<A, B>(r: ParseResult<A>) -> ParseResult<B> {
    match r {
        ParseResult::Incomplete => ParseResult::Incomplete,
        _ => ParseResult::Error,
    }
}

pub open spec fn crlf_lit() -> Seq<u8> {
    seq![13u8, 10u8]
}

pub fn crlf_bytes() -> (v: Vec<u8>)
    ensures
        v@ == crlf_lit(),
{
    let v: Vec<u8> = vec![13u8, 10u8];
    assert(v@ =~= crlf_lit());
    v
}

/// `CRLF` at the start of the input.
pub open spec fn spec_crlf(s: Seq<u8>) -> ParseResult<()> {
    lit_at(s, 0, crlf_lit())
}

pub fn crlf(s: &[u8]) -> (r: ParseResult<()>)
    ensures
        r == spec_crlf(s@),
{
    let l = crlf_bytes();
    lit(s, 0, l.as_slice())
}


pub open spec fn colon_lit() -> Seq<u8> {
    seq![58u8]
}

pub open spec fn space_lit() -> Seq<u8> {
    seq![32u8]
}

/// `HTTP/1.`
pub open spec fn http1_lit() -> Seq<u8> {
    seq![72u8, 84u8, 84u8, 80u8, 47u8, 49u8, 46u8]
}

fn colon_bytes() -> (v: Vec<u8>)
    ensures
        v@ == colon_lit(),
{
    let v: Vec<u8> = vec![58u8];
    assert(v@ =~= colon_lit());
    v
}

fn space_bytes() -> (v: Vec<u8>)
    ensures
        v@ == space_lit(),
{
    let v: Vec<u8> = vec![32u8];
    assert(v@ =~= space_lit());
    v
}

fn http1_bytes() -> (v: Vec<u8>)
    ensures
        v@ == http1_lit(),
{
    let v: Vec<u8> = vec![72u8, 84u8, 84u8, 80u8, 47u8, 49u8, 46u8];
    assert(v@ =~= http1_lit());
    v
}

/// Where the name and the value of a header line lie; the name starts at 0.
#[derive(Debug, Clone, Copy, PartialEq, Eq)]
pub struct HeaderRange {
    pub name_end: usize,
    pub value_start: usize,
    pub value_end: usize,
}

/// `field-name ":" OWS field-value CRLF`, where the name is a non-empty token
/// and the value is made of tabs and visible ASCII with spaces.
pub open spec fn spec_message_header(s: Seq<u8>) -> ParseResult<HeaderRange> {
    let r1 = take_while1(s, 0, CharClass::Token);
    match r1 {
        ParseResult::Done(ne, _) => {
            let r2 = lit_at(s, ne as int, colon_lit());
            match r2 {
                ParseResult::Done(p, _) => {
                    let r3 = take_while(s, p as int, CharClass::Space);
                    match r3 {
                        ParseResult::Done(vs, _) => {
                            let r4 = take_while(s, vs as int, CharClass::HeaderValue);
                            match r4 {
                                ParseResult::Done(ve, _) => {
                                    let r5 = lit_at(s, ve as int, crlf_lit());
                                    match r5 {
                                        ParseResult::Done(end, _) => ParseResult::Done(
                                            end,
                                            HeaderRange { name_end: ne, value_start: vs, value_end: ve },
                                        ),
                                        _ => fail_as(r5),
                                    }
                                },
                                _ => fail_as(r4),
                            }
                        },
                        _ => fail_as(r3),
                    }
                },
                _ => fail_as(r2),
            }
        },
        _ => fail_as(r1),
    }
}

/// What a `Done` header range promises of its positions.
pub open spec fn header_range_ok(s: Seq<u8>, end: usize, h: HeaderRange) -> bool {
    &&& 0 < h.name_end < h.value_start <= h.value_end
    &&& h.value_end + 2 == end <= s.len()
}

pub fn message_header(s: &[u8]) -> (r: ParseResult<HeaderRange>)
    ensures
        r == spec_message_header(s@),
        r matches ParseResult::Done(end, h) ==> header_range_ok(s@, end, h) && forall|k: int|
            h.value_start <= k < h.value_end ==> in_class(CharClass::HeaderValue, #[trigger] s@[k]),
{
    let ne = match take_while1_at(s, 0, CharClass::Token) {
        ParseResult::Done(n, _) => n,
        ParseResult::Incomplete => return ParseResult::Incomplete,
        ParseResult::Error => return ParseResult::Error,
    };
    let colon = colon_bytes();
    let p = match lit(s, ne, colon.as_slice()) {
        ParseResult::Done(n, _) => n,
        ParseResult::Incomplete => return ParseResult::Incomplete,
        ParseResult::Error => return ParseResult::Error,
    };
    let vs = match take_while_at(s, p, CharClass::Space) {
        ParseResult::Done(n, _) => n,
        ParseResult::Incomplete => return ParseResult::Incomplete,
        ParseResult::Error => return ParseResult::Error,
    };
    let ve = match take_while_at(s, vs, CharClass::HeaderValue) {
        ParseResult::Done(n, _) => n,
        ParseResult::Incomplete => return ParseResult::Incomplete,
        ParseResult::Error => return ParseResult::Error,
    };
    let crlf = crlf_bytes();
    match lit(s, ve, crlf.as_slice()) {
        ParseResult::Done(end, _) => ParseResult::Done(
            end,
            HeaderRange { name_end: ne, value_start: vs, value_end: ve },
        ),
        ParseResult::Incomplete => ParseResult::Incomplete,
        ParseResult::Error => ParseResult::Error,
    }
}

/// The version digit after `HTTP/1.`: `0` or `1`.
pub open spec fn version_at(s: Seq<u8>, i: int) -> ParseResult<Version> {
    if i >= s.len() {
        ParseResult::Incomplete
    } else if s[i] == 48 {
        ParseResult::Done((i + 1) as usize, Version::V10)
    } else if s[i] == 49 {
        ParseResult::Done((i + 1) as usize, Version::V11)
    } else {
        ParseResult::Error
    }
}

fn version_digit(s: &[u8], i: usize) -> (r: ParseResult<Version>)
    requires
        i <= s@.len(),
    ensures
        r == version_at(s@, i as int),
        r matches ParseResult::Done(e, _) ==> e == i + 1 && e <= s@.len(),
{
    if i >= s.len() {
        ParseResult::Incomplete
    } else if s[i] == 48 {
        ParseResult::Done(i + 1, Version::V10)
    } else if s[i] == 49 {
        ParseResult::Done(i + 1, Version::V11)
    } else {
        ParseResult::Error
    }
}

/// Where the parts of a status line lie: the three status bytes are at 9..12,
/// the reason phrase at 13..reason_end.
#[derive(Debug, Clone, Copy, PartialEq, Eq)]
pub struct StatusLineRange {
    pub version: Version,
    pub reason_end: usize,
}

/// `HTTP/1.x SP 3-bytes SP reason CRLF`.
pub open spec fn spec_status_line(s: Seq<u8>) -> ParseResult<StatusLineRange> {
    let r1 = lit_at(s, 0, http1_lit());
    match r1 {
        ParseResult::Done(_, _) => {
            let r2 = version_at(s, 7);
            match r2 {
                ParseResult::Done(_, version) => {
                    let r3 = lit_at(s, 8, space_lit());
                    match r3 {
                        ParseResult::Done(_, _) => if s.len() < 12 {
                            ParseResult::Incomplete
                        } else {
                            let r4 = lit_at(s, 12, space_lit());
                            match r4 {
                                ParseResult::Done(_, _) => {
                                    let r5 = take_while(s, 13, CharClass::HeaderValue);
                                    match r5 {
                                        ParseResult::Done(re, _) => {
                                            let r6 = lit_at(s, re as int, crlf_lit());
                                            match r6 {
                                                ParseResult::Done(end, _) => ParseResult::Done(
                                                    end,
                                                    StatusLineRange { version, reason_end: re },
                                                ),
                                                _ => fail_as(r6),
                                            }
                                        },
                                        _ => fail_as(r5),
                                    }
                                },
                                _ => fail_as(r4),
                            }
                        },
                        _ => fail_as(r3),
                    }
                },
                _ => fail_as(r2),
            }
        },
        _ => fail_as(r1),
    }
}

pub fn status_line(s: &[u8]) -> (r: ParseResult<StatusLineRange>)
    ensures
        r == spec_status_line(s@),
        r matches ParseResult::Done(end, l) ==> 13 <= l.reason_end && l.reason_end + 2 == end
            <= s@.len() && forall|k: int|
            13 <= k < l.reason_end ==> in_class(CharClass::HeaderValue, #[trigger] s@[k]),
{
    let http1 = http1_bytes();
    match lit(s, 0, http1.as_slice()) {
        ParseResult::Done(_, _) => {},
        ParseResult::Incomplete => return ParseResult::Incomplete,
        ParseResult::Error => return ParseResult::Error,
    }
    let version = match version_digit(s, 7) {
        ParseResult::Done(_, v) => v,
        ParseResult::Incomplete => return ParseResult::Incomplete,
        ParseResult::Error => return ParseResult::Error,
    };
    let sp = space_bytes();
    match lit(s, 8, sp.as_slice()) {
        ParseResult::Done(_, _) => {},
        ParseResult::Incomplete => return ParseResult::Incomplete,
        ParseResult::Error => return ParseResult::Error,
    }
    if s.len() < 12 {
        return ParseResult::Incomplete;
    }
    match lit(s, 12, sp.as_slice()) {
        ParseResult::Done(_, _) => {},
        ParseResult::Incomplete => return ParseResult::Incomplete,
        ParseResult::Error => return ParseResult::Error,
    }
    let re = match take_while_at(s, 13, CharClass::HeaderValue) {
        ParseResult::Done(n, _) => n,
        ParseResult::Incomplete => return ParseResult::Incomplete,
        ParseResult::Error => return ParseResult::Error,
    };
    let crlf = crlf_bytes();
    match lit(s, re, crlf.as_slice()) {
        ParseResult::Done(end, _) => ParseResult::Done(end, StatusLineRange { version, reason_end: re }),
        ParseResult::Incomplete => ParseResult::Incomplete,
        ParseResult::Error => ParseResult::Error,
    }
}

/// Where the parts of a request line lie; the method starts at 0.
#[derive(Debug, Clone, Copy, PartialEq, Eq)]
pub struct RequestLineRange {
    pub method_end: usize,
    pub uri_start: usize,
    pub uri_end: usize,
    pub version: Version,
}

/// `method SP request-target SP HTTP/1.x CRLF`, where the method is a
/// non-empty token and the target is made of visible ASCII.
pub open spec fn spec_request_line(s: Seq<u8>) -> ParseResult<RequestLineRange> {
    let r1 = take_while1(s, 0, CharClass::Token);
    match r1 {
        ParseResult::Done(me, _) => {
            let r2 = lit_at(s, me as int, space_lit());
            match r2 {
                ParseResult::Done(us, _) => {
                    let r3 = take_while1(s, us as int, CharClass::UriChar);
                    match r3 {
                        ParseResult::Done(ue, _) => {
                            let r4 = lit_at(s, ue as int, space_lit());
                            match r4 {
                                ParseResult::Done(hp, _) => {
                                    let r5 = lit_at(s, hp as int, http1_lit());
                                    match r5 {
                                        ParseResult::Done(vp, _) => {
                                            let r6 = version_at(s, vp as int);
                                            match r6 {
                                                ParseResult::Done(ve, version) => {
                                                    let r7 = lit_at(s, ve as int, crlf_lit());
                                                    match r7 {
                                                        ParseResult::Done(end, _) => ParseResult::Done(
                                                            end,
                                                            RequestLineRange {
                                                                method_end: me,
                                                                uri_start: us,
                                                                uri_end: ue,
                                                                version,
                                                            },
                                                        ),
                                                        _ => fail_as(r7),
                                                    }
                                                },
                                                _ => fail_as(r6),
                                            }
                                        },
                                        _ => fail_as(r5),
                                    }
                                },
                                _ => fail_as(r4),
                            }
                        },
                        _ => fail_as(r3),
                    }
                },
                _ => fail_as(r2),
            }
        },
        _ => fail_as(r1),
    }
}

pub open spec fn request_range_ok(s: Seq<u8>, end: usize, l: RequestLineRange) -> bool {
    &&& 0 < l.method_end < l.uri_start < l.uri_end
    &&& l.uri_start == l.method_end + 1
    &&& l.uri_end + 11 == end <= s.len()
}

pub fn request_line(s: &[u8]) -> (r: ParseResult<RequestLineRange>)
    ensures
        r == spec_request_line(s@),
        r matches ParseResult::Done(end, l) ==> request_range_ok(s@, end, l),
{
    let me = match take_while1_at(s, 0, CharClass::Token) {
        ParseResult::Done(n, _) => n,
        ParseResult::Incomplete => return ParseResult::Incomplete,
        ParseResult::Error => return ParseResult::Error,
    };
    let sp = space_bytes();
    let us = match lit(s, me, sp.as_slice()) {
        ParseResult::Done(n, _) => n,
        ParseResult::Incomplete => return ParseResult::Incomplete,
        ParseResult::Error => return ParseResult::Error,
    };
    let ue = match take_while1_at(s, us, CharClass::UriChar) {
        ParseResult::Done(n, _) => n,
        ParseResult::Incomplete => return ParseResult::Incomplete,
        ParseResult::Error => return ParseResult::Error,
    };
    let hp = match lit(s, ue, sp.as_slice()) {
        ParseResult::Done(n, _) => n,
        ParseResult::Incomplete => return ParseResult::Incomplete,
        ParseResult::Error => return ParseResult::Error,
    };
    let http1 = http1_bytes();
    let vp = match lit(s, hp, http1.as_slice()) {
        ParseResult::Done(n, _) => n,
        ParseResult::Incomplete => return ParseResult::Incomplete,
        ParseResult::Error => return ParseResult::Error,
    };
    let (ve, version) = match version_digit(s, vp) {
        ParseResult::Done(n, v) => (n, v),
        ParseResult::Incomplete => return ParseResult::Incomplete,
        ParseResult::Error => return ParseResult::Error,
    };
    let crlf = crlf_bytes();
    match lit(s, ve, crlf.as_slice()) {
        ParseResult::Done(end, _) => ParseResult::Done(
            end,
            RequestLineRange { method_end: me, uri_start: us, uri_end: ue, version },
        ),
        ParseResult::Incomplete => ParseResult::Incomplete,
        ParseResult::Error => ParseResult::Error,
    }
}


pub open spec fn digit_value(b: u8) -> nat {
    if is_digit(b) {
        (b - 48) as nat
    } else if 65 <= b <= 70 {
        (b - 55) as nat
    } else if 97 <= b <= 102 {
        (b - 87) as nat
    } else {
        0
    }
}

/// Value of a sequence of decimal digits.
pub open spec fn dec_value(d: Seq<u8>) -> nat
    decreases d.len(),
{
    if d.len() == 0 {
        0
    } else {
        dec_value(d.drop_last()) * 10 + digit_value(d.last())
    }
}

/// Value of a sequence of hexadecimal digits.
pub open spec fn hex_value(d: Seq<u8>) -> nat
    decreases d.len(),
{
    if d.len() == 0 {
        0
    } else {
        hex_value(d.drop_last()) * 16 + digit_value(d.last())
    }
}

proof fn lemma_value_grows(s: Seq<u8>, a: int, k: int, b: int, hex: bool)
    requires
        0 <= a <= k <= b <= s.len(),
    ensures
        hex ==> hex_value(s.subrange(a, k)) <= hex_value(s.subrange(a, b)),
        !hex ==> dec_value(s.subrange(a, k)) <= dec_value(s.subrange(a, b)),
    decreases b - k,
{
    if k < b {
        lemma_value_grows(s, a, k, b - 1, hex);
        assert(s.subrange(a, b).drop_last() =~= s.subrange(a, b - 1));
    }
}

/// Value of the digits `s[a..b]` in base 16 (`hex`) or 10, if it fits in a `usize`.
pub open spec fn digits_value(s: Seq<u8>, a: int, b: int, hex: bool) -> nat {
    if hex {
        hex_value(s.subrange(a, b))
    } else {
        dec_value(s.subrange(a, b))
    }
}

fn read_number(s: &[u8], a: usize, b: usize, hex: bool) -> (r: Option<usize>)
    requires
        a <= b <= s@.len(),
        forall|k: int| a <= k < b ==> in_class(
            if hex {
                CharClass::Hex
            } else {
                CharClass::Digit
            },
            #[trigger] s@[k],
        ),
    ensures
        match r {
            Some(v) => v == digits_value(s@, a as int, b as int, hex),
            None => digits_value(s@, a as int, b as int, hex) > usize::MAX,
        },
{
    let mut acc: usize = 0;
    let mut k = a;
    assert(s@.subrange(a as int, a as int) =~= Seq::<u8>::empty());
    while k < b
        invariant
            a <= k <= b <= s@.len(),
            acc == digits_value(s@, a as int, k as int, hex),
            forall|j: int| a <= j < b ==> in_class(
                if hex {
                    CharClass::Hex
                } else {
                    CharClass::Digit
                },
                #[trigger] s@[j],
            ),
        decreases b - k,
    {
        let c = s[k];
        let d: usize = if 48 <= c && c <= 57 {
            (c - 48) as usize
        } else if 65 <= c && c <= 70 {
            (c - 55) as usize
        } else if 97 <= c && c <= 102 {
            (c - 87) as usize
        } else {
            0
        };
        assert(d == digit_value(c));
        let base: usize = if hex { 16 } else { 10 };
        assert(s@.subrange(a as int, k + 1).drop_last() =~= s@.subrange(a as int, k as int));
        assert(s@.subrange(a as int, k + 1).last() == c);
        let q = (usize::MAX - d) / base;
        if acc > q {
            proof {
                assert(acc * base + d > usize::MAX) by (nonlinear_arith)
                    requires
                        acc > q,
                        q == (usize::MAX - d) as int / (base as int),
                        base == 10 || base == 16,
                        d <= 15,
                ;
                lemma_value_grows(s@, a as int, k + 1, b as int, hex);
            }
            return None;
        }
        assert(acc * base + d <= usize::MAX) by (nonlinear_arith)
            requires
                acc <= q,
                q == (usize::MAX - d) as int / (base as int),
                base == 10 || base == 16,
                d <= 15,
        ;
        acc = acc * base + d;
        k = k + 1;
    }
    Some(acc)
}

/// `usize::from_str` on ASCII bytes: an optional `+` then one or more
/// decimal digits whose value fits in a `usize`.
pub open spec fn spec_parse_usize(d: Seq<u8>) -> Option<usize> {
    let start: int = if d.len() > 0 && d[0] == 43 {
        1
    } else {
        0
    };
    if start >= d.len() || span(d, start, CharClass::Digit) < d.len() {
        None
    } else if dec_value(d.subrange(start, d.len() as int)) > usize::MAX {
        None
    } else {
        Some(dec_value(d.subrange(start, d.len() as int)) as usize)
    }
}

pub fn parse_usize(d: &[u8]) -> (r: Option<usize>)
    ensures
        r == spec_parse_usize(d@),
{
    let start: usize = if d.len() > 0 && d[0] == 43 {
        1
    } else {
        0
    };
    if start >= d.len() {
        return None;
    }
    let e = scan(d, start, CharClass::Digit);
    if e < d.len() {
        return None;
    }
    proof {
        lemma_span(d@, start as int, CharClass::Digit);
    }
    read_number(d, start, d.len(), false)
}

/// A chunk size line: hexadecimal digits whose value fits in a `usize`, then CRLF.
pub open spec fn spec_chunk_header(s: Seq<u8>, i: int) -> ParseResult<usize> {
    let r1 = take_while1(s, i, CharClass::Hex);
    match r1 {
        ParseResult::Done(he, _) => if hex_value(s.subrange(i, he as int)) > usize::MAX {
            ParseResult::Error
        } else {
            let r2 = lit_at(s, he as int, crlf_lit());
            match r2 {
                ParseResult::Done(end, _) => ParseResult::Done(
                    end,
                    hex_value(s.subrange(i, he as int)) as usize,
                ),
                _ => fail_as(r2),
            }
        },
        _ => fail_as(r1),
    }
}

pub fn chunk_header(s: &[u8], i: usize) -> (r: ParseResult<usize>)
    requires
        i <= s@.len(),
    ensures
        r == spec_chunk_header(s@, i as int),
        r matches ParseResult::Done(end, _) ==> i + 3 <= end <= s@.len(),
{
    let he = match take_while1_at(s, i, CharClass::Hex) {
        ParseResult::Done(n, _) => n,
        ParseResult::Incomplete => return ParseResult::Incomplete,
        ParseResult::Error => return ParseResult::Error,
    };
    proof {
        lemma_span(s@, i as int, CharClass::Hex);
    }
    let size = match read_number(s, i, he, true) {
        Some(v) => v,
        None => return ParseResult::Error,
    };
    let crlf = crlf_bytes();
    match lit(s, he, crlf.as_slice()) {
        ParseResult::Done(end, _) => ParseResult::Done(end, size),
        ParseResult::Incomplete => ParseResult::Incomplete,
        ParseResult::Error => ParseResult::Error,
    }
}

/// ASCII lower case.
pub open spec fn lower(b: u8) -> u8 {
    if 65 <= b <= 90 {
        (b + 32) as u8
    } else {
        b
    }
}

/// Equality up to ASCII case.
pub open spec fn eq_no_case(a: Seq<u8>, b: Seq<u8>) -> bool {
    a.len() == b.len() && forall|i: int| 0 <= i < a.len() ==> lower(#[trigger] a[i]) == lower(b[i])
}

fn lower_byte(b: u8) -> (r: u8)
    ensures
        r == lower(b),
{
    if 65 <= b && b <= 90 {
        b + 32
    } else {
        b
    }
}

pub fn compare_no_case(a: &[u8], b: &[u8]) -> (r: bool)
    ensures
        r == eq_no_case(a@, b@),
{
    if a.len() != b.len() {
        return false;
    }
    let mut i: usize = 0;
    while i < a.len()
        invariant
            a@.len() == b@.len(),
            i <= a@.len(),
            forall|j: int| 0 <= j < i ==> lower(#[trigger] a@[j]) == lower(b@[j]),
        decreases a@.len() - i,
    {
        if lower_byte(a[i]) != lower_byte(b[i]) {
            return false;
        }
        i = i + 1;
    }
    true
}

pub open spec fn starts_with(s: Seq<u8>, p: Seq<u8>) -> bool {
    p.len() <= s.len() && s.subrange(0, p.len() as int) == p
}

pub fn has_prefix(s: &[u8], p: &[u8]) -> (r: bool)
    ensures
        r == starts_with(s@, p@),
{
    if p.len() > s.len() {
        return false;
    }
    let mut i: usize = 0;
    while i < p.len()
        invariant
            p@.len() <= s@.len(),
            i <= p@.len(),
            forall|j: int| 0 <= j < i ==> s@[j] == p@[j],
        decreases p@.len() - i,
    {
        if s[i] != p[i] {
            assert(s@.subrange(0, p@.len() as int)[i as int] != p@[i as int]);
            return false;
        }
        i = i + 1;
    }
    assert(s@.subrange(0, p@.len() as int) =~= p@);
    true
}

/// First position in `[i, e)` that is not a space, or `e`.
pub open spec fn skip_spaces(s: Seq<u8>, i: int, e: int) -> int
    decreases e - i,
{
    if i < e && in_class(CharClass::Space, s[i]) {
        skip_spaces(s, i + 1, e)
    } else {
        i
    }
}

/// End of `[a, j)` once its trailing spaces are removed.
pub open spec fn trim_end(s: Seq<u8>, a: int, j: int) -> int
    decreases j - a,
{
    if a < j && in_class(CharClass::Space, s[j - 1]) {
        trim_end(s, a, j - 1)
    } else {
        j
    }
}

proof fn lemma_trim(s: Seq<u8>, i: int, e: int)
    requires
        0 <= i <= e <= s.len(),
    ensures
        i <= skip_spaces(s, i, e) <= trim_end(s, skip_spaces(s, i, e), e) <= e,
    decreases e - i,
{
    if i < e && in_class(CharClass::Space, s[i]) {
        lemma_trim(s, i + 1, e);
    } else {
        lemma_trim_end(s, i, e);
    }
}

proof fn lemma_trim_end(s: Seq<u8>, a: int, j: int)
    requires
        0 <= a <= j <= s.len(),
    ensures
        a <= trim_end(s, a, j) <= j,
    decreases j - a,
{
    if a < j && in_class(CharClass::Space, s[j - 1]) {
        lemma_trim_end(s, a, j - 1);
    }
}

/// The comma-separated list `s[i..]` has an element equal to `w` up to case,
/// once the spaces around the element are removed.
pub open spec fn list_has(s: Seq<u8>, i: int, w: Seq<u8>) -> bool
    decreases s.len() - i,
{
    if i < 0 || i > s.len() {
        false
    } else {
        let e = span(s, i, CharClass::NotComma);
        let a = skip_spaces(s, i, e);
        let b = trim_end(s, a, e);
        if eq_no_case(s.subrange(a, b), w) {
            true
        } else if e < s.len() {
            proof {
                lemma_span(s, i, CharClass::NotComma);
            }
            list_has(s, e + 1, w)
        } else {
            false
        }
    }
}

/// Whether the comma-separated list `s` holds `w`, up to case and spaces.
pub fn list_contains(s: &[u8], w: &[u8]) -> (r: bool)
    ensures
        r == list_has(s@, 0, w@),
{
    let mut i: usize = 0;
    loop
        invariant
            i <= s@.len(),
            list_has(s@, i as int, w@) == list_has(s@, 0, w@),
        decreases s@.len() - i,
    {
        let e = scan(s, i, CharClass::NotComma);
        let mut a = i;
        while a < e && (s[a] == 32 || s[a] == 9)
            invariant
                i <= a <= e <= s@.len(),
                skip_spaces(s@, a as int, e as int) == skip_spaces(s@, i as int, e as int),
            decreases e - a,
        {
            a = a + 1;
        }
        let mut b = e;
        while a < b && (s[b - 1] == 32 || s[b - 1] == 9)
            invariant
                a <= b <= e <= s@.len(),
                a == skip_spaces(s@, i as int, e as int),
                trim_end(s@, a as int, b as int) == trim_end(s@, a as int, e as int),
            decreases b - a,
        {
            b = b - 1;
        }
        if compare_no_case(&s[a..b], w) {
            return true;
        }
        if e >= s.len() {
            return false;
        }
        i = e + 1;
    }
}

} // verus!
